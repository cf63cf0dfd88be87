//! O padronizador de nomes de municípios: normaliza o texto e aplica, em
//! ordem, três regras de reescrita.
use vstd::prelude::*;
use crate::normalizacao::{
    lemma_maiuscula_brancos, maiuscula_sem_acento, normalizar_caracteres, spec_normalizar,
};
use crate::pareamento::{
    lemma_palavra_unica, lemma_palavras_aparar, lemma_palavras_bem_formadas, lemma_palavras_brancos_inicio,
    lemma_palavras_concat, lemma_palavras_nao_vazias, lemma_palavras_trocar, lemma_palavras_unir,
    lemma_unir_brancos, lemma_unir_frente, palavras, unir,
};
use crate::texto::{
    anexar_trecho, aparar, aparar_caracteres, corrida_inicial, de_caracteres, eh_espaco_branco, espaco_branco,
    lemma_corrida_inicial, para_caracteres,
};

verus! {

/// Dígito decimal ASCII.
pub open spec fn eh_digito(c: char) -> bool {
    '0' <= c && c <= '9'
}

/// Dígito da classe `\d`: no ASCII, `0` a `9`; fora dele, os dígitos decimais Unicode.
pub open spec fn eh_digito_d(c: char) -> bool {
    if (c as u32) < 0x80 {
        eh_digito(c)
    } else {
        crate::classes::digito_unicode(c)
    }
}

/// Caractere de palavra da classe `\w`: no ASCII, letras, dígitos e `_`; fora
/// dele, os caracteres de palavra Unicode.
pub open spec fn eh_palavra(c: char) -> bool {
    if (c as u32) < 0x80 {
        ||| ('0' <= c && c <= '9')
        ||| ('A' <= c && c <= 'Z')
        ||| ('a' <= c && c <= 'z')
        ||| c == '_'
    } else {
        crate::classes::palavra_unicode(c)
    }
}

/// Caracteres que sobrevivem à última regra: espaço, letras maiúsculas ASCII,
/// dígitos ASCII, apóstrofo e hífen.
pub open spec fn eh_permitido(c: char) -> bool {
    ||| c == ' '
    ||| ('A' <= c && c <= 'Z')
    ||| ('0' <= c && c <= '9')
    ||| c == '\''
    ||| c == '-'
}

/// Uma palavra feita só de dígitos (`\d`), com ao menos dois deles, começando por `0`.
pub open spec fn numero_com_zeros(w: Seq<char>) -> bool {
    &&& w.len() >= 2
    &&& w[0] == '0'
    &&& forall|j: int| 0 <= j < w.len() ==> eh_digito_d(#[trigger] w[j])
}

/// Uma palavra sem os zeros à esquerda, se for um número que os tem; do contrário,
/// a própria palavra. Resta sempre ao menos um dígito (`000` vira `0`).
pub open spec fn tirar_zeros_palavra(w: Seq<char>) -> Seq<char> {
    if numero_com_zeros(w) {
        let z = corrida_inicial(w, |c: char| c == '0');
        if z == w.len() {
            w.skip(w.len() - 1)
        } else {
            w.skip(z as int)
        }
    } else {
        w
    }
}

/// Primeira regra (`\b0+(\d+)\b` trocado por `$1`): cada palavra (sequência
/// máxima de caracteres de palavra) que é um número começado por zero perde os
/// zeros à esquerda.
pub open spec fn tirar_zeros(s: Seq<char>) -> Seq<char>
    decreases s.len(),
{
    if s.len() == 0 {
        s
    } else if eh_palavra(s[0]) {
        let k = corrida_inicial(s, |c: char| eh_palavra(c));
        if 0 < k <= s.len() {
            tirar_zeros_palavra(s.take(k as int)) + tirar_zeros(s.skip(k as int))
        } else {
            s
        }
    } else {
        seq![s[0]] + tirar_zeros(s.drop_first())
    }
}

/// Segunda regra: cada sequência de dois ou mais espaços em branco vira um único
/// espaço; um espaço em branco isolado fica como está.
pub open spec fn colapsar_espacos(s: Seq<char>) -> Seq<char>
    decreases s.len(),
{
    if s.len() == 0 {
        s
    } else if eh_espaco_branco(s[0]) {
        let k = corrida_inicial(s, |c: char| eh_espaco_branco(c));
        if 2 <= k <= s.len() {
            seq![' '] + colapsar_espacos(s.skip(k as int))
        } else {
            seq![s[0]] + colapsar_espacos(s.drop_first())
        }
    } else {
        seq![s[0]] + colapsar_espacos(s.drop_first())
    }
}

/// Terceira regra: remove todo caractere que não seja [`eh_permitido`].
pub open spec fn manter_permitidos(s: Seq<char>) -> Seq<char>
    decreases s.len(),
{
    if s.len() == 0 {
        s
    } else if eh_permitido(s.last()) {
        manter_permitidos(s.drop_last()).push(s.last())
    } else {
        manter_permitidos(s.drop_last())
    }
}

/// O resultado da padronização de um nome de município: o texto normalizado,
/// passado pelas três regras, sem espaços em branco nas pontas.
pub open spec fn spec_padronizar(s: Seq<char>) -> Seq<char> {
    aparar(manter_permitidos(colapsar_espacos(tirar_zeros(spec_normalizar(s)))))
}

/// Uma regra de reescrita do padronizador.
#[derive(Clone, Copy, Debug)]
pub enum Regra {
    /// Tira os zeros à esquerda dos números ([`tirar_zeros`]).
    ZerosAEsquerda,
    /// Reduz sequências de espaços em branco a um espaço ([`colapsar_espacos`]).
    EspacosRepetidos,
    /// Remove os caracteres fora de `[ A-Z0-9'-]` ([`manter_permitidos`]).
    ForaDePermitidos,
}

/// O efeito de uma regra sobre um texto.
pub open spec fn aplicar_regra(r: Regra, s: Seq<char>) -> Seq<char> {
    match r {
        Regra::ZerosAEsquerda => tirar_zeros(s),
        Regra::EspacosRepetidos => colapsar_espacos(s),
        Regra::ForaDePermitidos => manter_permitidos(s),
    }
}

/// O efeito de uma lista de regras, aplicadas em ordem.
pub open spec fn aplicar_regras(s: Seq<char>, regras: Seq<Regra>) -> Seq<char>
    decreases regras.len(),
{
    if regras.len() == 0 {
        s
    } else {
        aplicar_regra(regras.last(), aplicar_regras(s, regras.drop_last()))
    }
}

/// As regras do padronizador de nomes de municípios, nesta ordem.
pub open spec fn regras_municipio() -> Seq<Regra> {
    seq![Regra::ZerosAEsquerda, Regra::EspacosRepetidos, Regra::ForaDePermitidos]
}

/// As regras de municípios, aplicadas em ordem, são as três funções compostas.
pub proof fn lemma_regras_municipio(s: Seq<char>)
    ensures
        aplicar_regras(s, regras_municipio()) == manter_permitidos(
            colapsar_espacos(tirar_zeros(s)),
        ),
{
    let r = regras_municipio();
    assert(r.drop_last() =~= seq![Regra::ZerosAEsquerda, Regra::EspacosRepetidos]);
    assert(r.drop_last().drop_last() =~= seq![Regra::ZerosAEsquerda]);
    assert(r.drop_last().drop_last().drop_last() =~= Seq::<Regra>::empty());
    reveal_with_fuel(aplicar_regras, 4);
}

/// Um padronizador: normaliza o texto, aplica suas regras em ordem e apara as pontas.
pub struct Padronizador {
    /// As regras, na ordem em que são aplicadas.
    pub regras: Vec<Regra>,
}

/// Cria o padronizador de nomes de municípios: zeros à esquerda, espaços
/// repetidos e caracteres fora de `[ A-Z0-9'-]`, nesta ordem.
pub fn criar_padronizador() -> (p: Padronizador)
    ensures
        p.regras@ == regras_municipio(),
{
    let regras = vec![Regra::ZerosAEsquerda, Regra::EspacosRepetidos, Regra::ForaDePermitidos];
    assert(regras@ =~= regras_municipio());
    Padronizador { regras }
}

fn palavra(c: char) -> (r: bool)
    ensures
        r == eh_palavra(c),
{
    if (c as u32) < 0x80 {
        ('0' <= c && c <= '9') || ('A' <= c && c <= 'Z') || ('a' <= c && c <= 'z') || c == '_'
    } else {
        crate::classes::eh_palavra_unicode(c)
    }
}

fn digito_d(c: char) -> (r: bool)
    ensures
        r == eh_digito_d(c),
{
    if (c as u32) < 0x80 {
        '0' <= c && c <= '9'
    } else {
        crate::classes::eh_digito_unicode(c)
    }
}

/// Aplica a primeira regra ([`tirar_zeros`]).
fn tirar_zeros_exec(s: &Vec<char>) -> (r: Vec<char>)
    ensures
        r@ == tirar_zeros(s@),
{
    let n = s.len();
    let mut r: Vec<char> = Vec::new();
    let mut i: usize = 0;
    assert(s@.skip(0) =~= s@);
    while i < n
        invariant
            i <= n,
            n == s.len(),
            tirar_zeros(s@) == r@ + tirar_zeros(s@.skip(i as int)),
        decreases n - i,
    {
        let ghost t = s@.skip(i as int);
        if palavra(s[i]) {
            let mut j = i;
            while j < n && palavra(s[j])
                invariant
                    i <= j <= n,
                    n == s.len(),
                    forall|q: int| i <= q < j ==> eh_palavra(#[trigger] s@[q]),
                decreases n - j,
            {
                j = j + 1;
            }
            let mut digitos = j - i >= 2 && s[i] == '0';
            if digitos {
                let mut q = i;
                while q < j
                    invariant
                        i <= q <= j <= n,
                        n == s.len(),
                        digitos == (forall|x: int| i <= x < q ==> eh_digito_d(#[trigger] s@[x])),
                    decreases j - q,
                {
                    if !digito_d(s[q]) {
                        digitos = false;
                    }
                    q = q + 1;
                }
            }
            let ghost w = s@.subrange(i as int, j as int);
            proof {
                assert forall|q: int| 0 <= q < j - i implies eh_palavra(#[trigger] t[q]) by {
                    assert(t[q] == s@[q + i]);
                }
                if j < n {
                    assert(t[j - i] == s@[j as int]);
                }
                lemma_corrida_inicial(t, |c: char| eh_palavra(c), (j - i) as int);
                assert(t.take((j - i) as int) =~= w);
                assert(t.skip((j - i) as int) =~= s@.skip(j as int));
            }
            if digitos && j - i >= 2 && s[i] == '0' {
                let mut z = i;
                while z < j && s[z] == '0'
                    invariant
                        i <= z <= j,
                        j <= n == s.len(),
                        forall|q: int| i <= q < z ==> #[trigger] s@[q] == '0',
                    decreases j - z,
                {
                    z = z + 1;
                }
                proof {
                    assert forall|q: int| 0 <= q < z - i implies (|c: char| c == '0')(
                        #[trigger] w[q],
                    ) by {
                        assert(w[q] == s@[q + i]);
                    }
                    if z < j {
                        assert(w[z - i] == s@[z as int]);
                    }
                    lemma_corrida_inicial(w, |c: char| c == '0', (z - i) as int);
                    assert(numero_com_zeros(w)) by {
                        assert forall|q: int| 0 <= q < w.len() implies eh_digito_d(#[trigger] w[q]) by {
                            assert(w[q] == s@[q + i]);
                        }
                    }
                }
                let inicio = if z == j {
                    j - 1
                } else {
                    z
                };
                anexar_trecho(&mut r, s, inicio, j);
                assert(w.skip(inicio - i) =~= s@.subrange(inicio as int, j as int));
            } else {
                proof {
                    if numero_com_zeros(w) {
                        assert(w[0] == s@[i as int]);
                        assert forall|q: int| i <= q < j implies eh_digito_d(#[trigger] s@[q]) by {
                            assert(s@[q] == w[q - i]);
                        }
                    }
                }
                anexar_trecho(&mut r, s, i, j);
            }
            i = j;
        } else {
            r.push(s[i]);
            assert(t.drop_first() =~= s@.skip(i + 1));
            i = i + 1;
        }
    }
    assert(s@.skip(n as int) =~= Seq::<char>::empty());
    assert(r@ + Seq::<char>::empty() =~= r@);
    r
}


/// Aplica a segunda regra ([`colapsar_espacos`]).
fn colapsar_espacos_exec(s: &Vec<char>) -> (r: Vec<char>)
    ensures
        r@ == colapsar_espacos(s@),
{
    let n = s.len();
    let mut r: Vec<char> = Vec::new();
    let mut i: usize = 0;
    assert(s@.skip(0) =~= s@);
    while i < n
        invariant
            i <= n,
            n == s.len(),
            colapsar_espacos(s@) == r@ + colapsar_espacos(s@.skip(i as int)),
        decreases n - i,
    {
        let ghost t = s@.skip(i as int);
        if espaco_branco(s[i]) {
            let mut j = i;
            while j < n && espaco_branco(s[j])
                invariant
                    i <= j <= n,
                    n == s.len(),
                    forall|q: int| i <= q < j ==> eh_espaco_branco(#[trigger] s@[q]),
                decreases n - j,
            {
                j = j + 1;
            }
            proof {
                assert forall|q: int| 0 <= q < j - i implies eh_espaco_branco(#[trigger] t[q]) by {
                    assert(t[q] == s@[q + i]);
                }
                if j < n {
                    assert(t[j - i] == s@[j as int]);
                }
                lemma_corrida_inicial(t, |c: char| eh_espaco_branco(c), (j - i) as int);
            }
            if j - i >= 2 {
                r.push(' ');
                assert(t.skip((j - i) as int) =~= s@.skip(j as int));
                i = j;
            } else {
                r.push(s[i]);
                assert(t.drop_first() =~= s@.skip(i + 1));
                i = i + 1;
            }
        } else {
            r.push(s[i]);
            assert(t.drop_first() =~= s@.skip(i + 1));
            i = i + 1;
        }
    }
    assert(s@.skip(n as int) =~= Seq::<char>::empty());
    assert(r@ + Seq::<char>::empty() =~= r@);
    r
}

/// Aplica a terceira regra ([`manter_permitidos`]).
fn manter_permitidos_exec(s: &Vec<char>) -> (r: Vec<char>)
    ensures
        r@ == manter_permitidos(s@),
{
    let mut r: Vec<char> = Vec::new();
    let mut i: usize = 0;
    while i < s.len()
        invariant
            i <= s.len(),
            r@ == manter_permitidos(s@.take(i as int)),
        decreases s.len() - i,
    {
        let c = s[i];
        assert(s@.take(i + 1).drop_last() =~= s@.take(i as int));
        if c == ' ' || ('A' <= c && c <= 'Z') || ('0' <= c && c <= '9') || c == '\'' || c == '-' {
            r.push(c);
        }
        i = i + 1;
    }
    assert(s@.take(s.len() as int) =~= s@);
    r
}

/// Aplica uma regra.
fn aplicar_regra_exec(r: Regra, s: &Vec<char>) -> (t: Vec<char>)
    ensures
        t@ == aplicar_regra(r, s@),
{
    match r {
        Regra::ZerosAEsquerda => tirar_zeros_exec(s),
        Regra::EspacosRepetidos => colapsar_espacos_exec(s),
        Regra::ForaDePermitidos => manter_permitidos_exec(s),
    }
}

impl Padronizador {
    /// Padroniza um texto: normaliza, aplica as regras em ordem e apara as pontas.
    pub fn padronizar(&self, valor: &str) -> (r: String)
        ensures
            r@ == aparar(aplicar_regras(spec_normalizar(valor@), self.regras@)),
    {
        let v = para_caracteres(valor);
        let mut atual = normalizar_caracteres(&v);
        let ghost n = atual@;
        let mut i: usize = 0;
        while i < self.regras.len()
            invariant
                i <= self.regras.len(),
                atual@ == aplicar_regras(n, self.regras@.take(i as int)),
            decreases self.regras.len() - i,
        {
            let r = self.regras[i];
            atual = aplicar_regra_exec(r, &atual);
            assert(self.regras@.take(i + 1).drop_last() =~= self.regras@.take(i as int));
            i = i + 1;
        }
        assert(self.regras@.take(self.regras.len() as int) =~= self.regras@);
        let d = aparar_caracteres(&atual);
        de_caracteres(&d)
    }
}

/// Espaços em branco nas pontas não mudam a padronização.
pub proof fn lei_padronizar_ignora_pontas(a: Seq<char>, s: Seq<char>, b: Seq<char>)
    requires
        crate::texto::so_brancos(a),
        crate::texto::so_brancos(b),
    ensures
        spec_padronizar(a + s + b) == spec_padronizar(s),
{
    crate::normalizacao::lei_normalizar_ignora_pontas(a, s, b);
}

/// Letras maiúsculas e minúsculas ASCII são padronizadas igualmente.
pub proof fn lei_padronizar_ignora_caixa(s: Seq<char>)
    ensures
        spec_padronizar(crate::normalizacao::minusculas_ascii(s)) == spec_padronizar(s),
{
    crate::normalizacao::lei_normalizar_ignora_caixa(s);
}

/// Só dígitos ASCII.
pub open spec fn so_digitos(d: Seq<char>) -> bool {
    forall|i: int| 0 <= i < d.len() ==> eh_digito(#[trigger] d[i])
}

proof fn lemma_digitos_normalizados(d: Seq<char>)
    requires
        d.len() > 0,
        so_digitos(d),
    ensures
        spec_normalizar(d) == d,
{
    let f = |c: char| crate::normalizacao::maiuscula_sem_acento(c);
    assert(d.map_values(f) =~= d);
    crate::texto::lemma_aparar_trecho(d, 0, d.len() as int);
    assert(d.subrange(0, d.len() as int) =~= d);
}

proof fn lemma_digitos_uma_palavra(d: Seq<char>)
    requires
        d.len() > 0,
        so_digitos(d),
    ensures
        tirar_zeros(d) == tirar_zeros_palavra(d),
{
    assert forall|j: int| 0 <= j < d.len() implies (|c: char| eh_palavra(c))(#[trigger] d[j]) by {
        assert(eh_digito(d[j]));
    }
    assert(eh_digito(d[0]));
    lemma_corrida_inicial(d, |c: char| eh_palavra(c), d.len() as int);
    assert(d.take(d.len() as int) =~= d);
    assert(tirar_zeros(Seq::<char>::empty()) == Seq::<char>::empty());
    assert(d.skip(d.len() as int) =~= Seq::<char>::empty());
    assert(tirar_zeros_palavra(d) + Seq::<char>::empty() =~= tirar_zeros_palavra(d));
}

/// Um zero à esquerda de um número não muda a padronização (`03304557` e
/// `3304557` dão o mesmo resultado).
pub proof fn lei_zero_a_esquerda(d: Seq<char>)
    requires
        d.len() > 0,
        so_digitos(d),
    ensures
        spec_padronizar(seq!['0'] + d) == spec_padronizar(d),
{
    let w = seq!['0'] + d;
    assert(so_digitos(w)) by {
        assert forall|i: int| 0 <= i < w.len() implies eh_digito(#[trigger] w[i]) by {
            if i > 0 {
                assert(w[i] == d[i - 1]);
            }
        }
    }
    lemma_digitos_normalizados(d);
    lemma_digitos_normalizados(w);
    lemma_digitos_uma_palavra(d);
    lemma_digitos_uma_palavra(w);
    let zero = |c: char| c == '0';
    assert(w.drop_first() =~= d);
    let zd = corrida_inicial(d, zero);
    assert(corrida_inicial(w, zero) == 1 + zd);
    assert(numero_com_zeros(w));
    crate::texto::lemma_corrida_propriedades(d, zero);
    if d.len() == 1 {
        assert(!numero_com_zeros(d));
        assert(w.skip(1) =~= d);
    } else if d[0] == '0' {
        assert(numero_com_zeros(d));
        if zd == d.len() {
            assert(w.skip(w.len() - 1) =~= d.skip(d.len() - 1));
        } else {
            assert(w.skip(1 + zd as int) =~= d.skip(zd as int));
        }
    } else {
        assert(!numero_com_zeros(d));
        assert(w.skip(1) =~= d);
    }
    assert(tirar_zeros_palavra(w) == tirar_zeros_palavra(d));
}

/// A primeira regra, diante de um caractere que não é de palavra.
proof fn lemma_zeros_nao_palavra(c: char, y: Seq<char>)
    requires
        !eh_palavra(c),
    ensures
        tirar_zeros(seq![c] + y) == seq![c] + tirar_zeros(y),
{
    assert((seq![c] + y).drop_first() =~= y);
}

/// A primeira regra, diante de uma palavra inteira.
proof fn lemma_zeros_palavra(u: Seq<char>, y: Seq<char>)
    requires
        u.len() > 0,
        forall|i: int| 0 <= i < u.len() ==> eh_palavra(#[trigger] u[i]),
        y.len() == 0 || !eh_palavra(y[0]),
    ensures
        tirar_zeros(u + y) == tirar_zeros_palavra(u) + tirar_zeros(y),
{
    let x = u + y;
    assert forall|j: int| 0 <= j < u.len() implies (|c: char| eh_palavra(c))(#[trigger] x[j]) by {
        assert(x[j] == u[j]);
    }
    if y.len() > 0 {
        assert(x[u.len() as int] == y[0]);
    }
    assert(eh_palavra(x[0]));
    lemma_corrida_inicial(x, |c: char| eh_palavra(c), u.len() as int);
    assert(x.take(u.len() as int) =~= u);
    assert(x.skip(u.len() as int) =~= y);
}

/// A segunda regra, diante de um caractere que não é espaço em branco.
proof fn lemma_espacos_nao_branco(c: char, y: Seq<char>)
    requires
        !eh_espaco_branco(c),
    ensures
        colapsar_espacos(seq![c] + y) == seq![c] + colapsar_espacos(y),
{
    assert((seq![c] + y).drop_first() =~= y);
}

/// O que a segunda regra põe no lugar de uma sequência máxima de brancos.
pub open spec fn troca_brancos(u: Seq<char>) -> Seq<char> {
    if u.len() >= 2 {
        seq![' ']
    } else {
        u
    }
}

/// A segunda regra, diante de uma sequência máxima de brancos.
proof fn lemma_espacos_brancos(u: Seq<char>, y: Seq<char>)
    requires
        u.len() > 0,
        forall|i: int| 0 <= i < u.len() ==> eh_espaco_branco(#[trigger] u[i]),
        y.len() == 0 || !eh_espaco_branco(y[0]),
    ensures
        colapsar_espacos(u + y) == troca_brancos(u) + colapsar_espacos(y),
{
    let x = u + y;
    assert forall|j: int| 0 <= j < u.len() implies (|c: char| eh_espaco_branco(c))(#[trigger] x[j]) by {
        assert(x[j] == u[j]);
    }
    if y.len() > 0 {
        assert(x[u.len() as int] == y[0]);
    }
    assert(eh_espaco_branco(x[0]));
    lemma_corrida_inicial(x, |c: char| eh_espaco_branco(c), u.len() as int);
    if u.len() >= 2 {
        assert(x.skip(u.len() as int) =~= y);
    } else {
        assert(x.drop_first() =~= y);
        assert(seq![x[0]] =~= u);
    }
}

/// A segunda regra deixa intacto um trecho sem brancos no início.
proof fn lemma_espacos_prefixo(u: Seq<char>, y: Seq<char>)
    requires
        forall|i: int| 0 <= i < u.len() ==> !eh_espaco_branco(#[trigger] u[i]),
    ensures
        colapsar_espacos(u + y) == u + colapsar_espacos(y),
    decreases u.len(),
{
    if u.len() > 0 {
        let u1 = u.drop_first();
        assert forall|i: int| 0 <= i < u1.len() implies !eh_espaco_branco(#[trigger] u1[i]) by {
            assert(u1[i] == u[i + 1]);
        }
        lemma_espacos_prefixo(u1, y);
        assert(u + y =~= seq![u[0]] + (u1 + y));
        lemma_espacos_nao_branco(u[0], u1 + y);
        assert(seq![u[0]] + (u1 + colapsar_espacos(y)) =~= u + colapsar_espacos(y));
    } else {
        assert(u + y =~= y);
        assert(u + colapsar_espacos(y) =~= colapsar_espacos(y));
    }
}

/// A primeira regra deixa intacto um trecho sem caracteres de palavra no início.
proof fn lemma_zeros_prefixo(u: Seq<char>, y: Seq<char>)
    requires
        forall|i: int| 0 <= i < u.len() ==> !eh_palavra(#[trigger] u[i]),
    ensures
        tirar_zeros(u + y) == u + tirar_zeros(y),
    decreases u.len(),
{
    if u.len() > 0 {
        let u1 = u.drop_first();
        assert forall|i: int| 0 <= i < u1.len() implies !eh_palavra(#[trigger] u1[i]) by {
            assert(u1[i] == u[i + 1]);
        }
        lemma_zeros_prefixo(u1, y);
        assert(u + y =~= seq![u[0]] + (u1 + y));
        lemma_zeros_nao_palavra(u[0], u1 + y);
        assert(seq![u[0]] + (u1 + tirar_zeros(y)) =~= u + tirar_zeros(y));
    } else {
        assert(u + y =~= y);
        assert(u + tirar_zeros(y) =~= tirar_zeros(y));
    }
}

/// O primeiro caractere depois da primeira regra: de palavra, se o primeiro do texto era.
proof fn lemma_zeros_primeiro(x: Seq<char>)
    requires
        x.len() > 0,
    ensures
        tirar_zeros(x).len() > 0,
        !eh_palavra(x[0]) ==> tirar_zeros(x)[0] == x[0],
        eh_palavra(x[0]) ==> eh_palavra(tirar_zeros(x)[0]),
{
    if eh_palavra(x[0]) {
        let p = |c: char| eh_palavra(c);
        crate::texto::lemma_corrida_propriedades(x, p);
        let k = corrida_inicial(x, p);
        let w = x.take(k as int);
        assert(w[0] == x[0]);
        let z = corrida_inicial(w, |c: char| c == '0');
        crate::texto::lemma_corrida_propriedades(w, |c: char| c == '0');
        if numero_com_zeros(w) {
            if z == w.len() {
                assert(tirar_zeros_palavra(w)[0] == w[w.len() - 1]);
            } else {
                assert(tirar_zeros_palavra(w)[0] == w[z as int]);
            }
        }
    }
}

/// Uma propriedade de todos os caracteres de uma palavra vale para o que a
/// primeira regra faz dela (que é um sufixo dela).
proof fn lemma_zeros_palavra_preserva(w: Seq<char>, p: spec_fn(char) -> bool)
    requires
        forall|i: int| 0 <= i < w.len() ==> p(#[trigger] w[i]),
    ensures
        forall|i: int|
            0 <= i < tirar_zeros_palavra(w).len() ==> p(#[trigger] tirar_zeros_palavra(w)[i]),
{
    if numero_com_zeros(w) {
        let z = corrida_inicial(w, |c: char| c == '0');
        crate::texto::lemma_corrida_propriedades(w, |c: char| c == '0');
        let t = tirar_zeros_palavra(w);
        let d = if z == w.len() {
            w.len() - 1
        } else {
            z as int
        };
        assert(t =~= w.skip(d));
        assert forall|i: int| 0 <= i < t.len() implies p(#[trigger] t[i]) by {
            assert(t[i] == w[i + d]);
        }
    }
}

/// A primeira regra age em separado dos dois lados de um ponto seguido de um
/// caractere que não é de palavra.
proof fn lemma_zeros_concat(a: Seq<char>, y: Seq<char>)
    requires
        y.len() == 0 || !eh_palavra(y[0]),
    ensures
        tirar_zeros(a + y) == tirar_zeros(a) + tirar_zeros(y),
    decreases a.len(),
{
    if a.len() == 0 {
        assert(a + y =~= y);
        assert(tirar_zeros(a) + tirar_zeros(y) =~= tirar_zeros(y));
    } else if !eh_palavra(a[0]) {
        let a1 = a.drop_first();
        lemma_zeros_concat(a1, y);
        assert(a + y =~= seq![a[0]] + (a1 + y));
        lemma_zeros_nao_palavra(a[0], a1 + y);
        assert(seq![a[0]] + (tirar_zeros(a1) + tirar_zeros(y)) =~= (seq![a[0]] + tirar_zeros(a1))
            + tirar_zeros(y));
    } else {
        let p = |c: char| eh_palavra(c);
        crate::texto::lemma_corrida_propriedades(a, p);
        let k = corrida_inicial(a, p) as int;
        assert(p(a[0]));
        let u = a.take(k);
        let a1 = a.skip(k);
        assert forall|i: int| 0 <= i < u.len() implies eh_palavra(#[trigger] u[i]) by {
            assert(u[i] == a[i]);
            assert(p(a[i]));
        }
        if k < a.len() {
            assert(a1[0] == a[k]);
            lemma_zeros_concat(a1, y);
            lemma_zeros_palavra(u, a1 + y);
            lemma_zeros_palavra(u, a1);
            assert(a + y =~= u + (a1 + y));
            assert(a =~= u + a1);
            assert(tirar_zeros_palavra(u) + (tirar_zeros(a1) + tirar_zeros(y)) =~= (
            tirar_zeros_palavra(u) + tirar_zeros(a1)) + tirar_zeros(y));
        } else {
            assert(u =~= a);
            let e = Seq::<char>::empty();
            lemma_zeros_palavra(a, y);
            lemma_zeros_palavra(a, e);
            assert(a + e =~= a);
            assert(tirar_zeros_palavra(a) + tirar_zeros(e) =~= tirar_zeros_palavra(a));
        }
    }
}

/// Uma propriedade de todos os caracteres de um texto vale para os do resultado
/// da primeira regra, que só remove caracteres.
proof fn lemma_zeros_preserva(x: Seq<char>, q: spec_fn(char) -> bool)
    requires
        forall|i: int| 0 <= i < x.len() ==> q(#[trigger] x[i]),
    ensures
        forall|i: int| 0 <= i < tirar_zeros(x).len() ==> q(#[trigger] tirar_zeros(x)[i]),
    decreases x.len(),
{
    if x.len() > 0 {
        let (t, x1) = if eh_palavra(x[0]) {
            let p = |c: char| eh_palavra(c);
            crate::texto::lemma_corrida_propriedades(x, p);
            let k = corrida_inicial(x, p) as int;
            assert(p(x[0]));
            let u = x.take(k);
            assert forall|i: int| 0 <= i < u.len() implies q(#[trigger] u[i]) by {
                assert(u[i] == x[i]);
            }
            lemma_zeros_palavra_preserva(u, q);
            (tirar_zeros_palavra(u), x.skip(k))
        } else {
            assert forall|i: int| 0 <= i < 1 implies q(#[trigger] seq![x[0]][i]) by {}
            (seq![x[0]], x.drop_first())
        };
        assert(tirar_zeros(x) == t + tirar_zeros(x1));
        assert forall|i: int| 0 <= i < x1.len() implies q(#[trigger] x1[i]) by {
            assert(x1[i] == x[i + (x.len() - x1.len())]);
        }
        lemma_zeros_preserva(x1, q);
        let r = tirar_zeros(x1);
        assert forall|i: int| 0 <= i < (t + r).len() implies q(#[trigger] (t + r)[i]) by {
            if i < t.len() {
                assert((t + r)[i] == t[i]);
            } else {
                assert((t + r)[i] == r[i - t.len()]);
            }
        }
    }
}

/// Todo espaço em branco de `x` é o espaço `' '`.
pub open spec fn brancos_simples(x: Seq<char>) -> bool {
    forall|i: int| 0 <= i < x.len() ==> eh_espaco_branco(#[trigger] x[i]) ==> x[i] == ' '
}

/// As duas primeiras regras sobre um texto que não começa por espaço em branco e
/// cujos espaços em branco são `' '`: as palavras do texto, cada uma passada pela
/// primeira regra, unidas por um espaço, e mais um espaço se o texto termina em
/// branco.
proof fn lemma_zeros_espacos_palavras(x: Seq<char>)
    requires
        brancos_simples(x),
        x.len() == 0 || !eh_espaco_branco(x[0]),
    ensures
        colapsar_espacos(tirar_zeros(x)) == unir(
            palavras(x).map_values(|w: Seq<char>| tirar_zeros(w)),
        ) + (if x.len() > 0 && eh_espaco_branco(x.last()) {
            seq![' ']
        } else {
            Seq::<char>::empty()
        }),
    decreases x.len(),
{
    let g = |w: Seq<char>| tirar_zeros(w);
    let e = Seq::<char>::empty();
    if x.len() == 0 {
        assert(palavras(x).map_values(g) =~= Seq::<Seq<char>>::empty());
        assert(colapsar_espacos(tirar_zeros(x)) =~= e);
        assert(e + e =~= e);
    } else {
        let nb = |c: char| !eh_espaco_branco(c);
        crate::texto::lemma_corrida_propriedades(x, nb);
        let k = corrida_inicial(x, nb) as int;
        assert(nb(x[0]));
        let w = x.take(k);
        let resto = x.skip(k);
        assert forall|i: int| 0 <= i < w.len() implies nb(#[trigger] w[i]) by {
            assert(w[i] == x[i]);
        }
        assert forall|i: int| 0 <= i < w.len() implies !eh_espaco_branco(#[trigger] w[i]) by {
            assert(nb(w[i]));
        }
        lemma_zeros_preserva(w, nb);
        let zw = tirar_zeros(w);
        assert forall|i: int| 0 <= i < zw.len() implies !eh_espaco_branco(#[trigger] zw[i]) by {
            assert(nb(zw[i]));
        }
        lemma_palavra_unica(w);
        if resto.len() == 0 {
            assert(x =~= w);
            lemma_espacos_prefixo(zw, e);
            assert(zw + e =~= zw);
            assert(palavras(x).map_values(g) =~= seq![zw]);
            assert(x.last() == w[k - 1]);
            assert(colapsar_espacos(tirar_zeros(x)) =~= unir(palavras(x).map_values(g)) + e);
        } else {
            assert(resto[0] == x[k]);
            let b = |c: char| eh_espaco_branco(c);
            crate::texto::lemma_corrida_propriedades(resto, b);
            let j = corrida_inicial(resto, b) as int;
            assert(b(resto[0]));
            let brancos = resto.take(j);
            let x2 = resto.skip(j);
            assert forall|i: int| 0 <= i < brancos.len() implies #[trigger] brancos[i] == ' ' by {
                assert(brancos[i] == resto[i]);
                assert(resto[i] == x[k + i]);
                assert(b(resto[i]));
            }
            assert forall|i: int| 0 <= i < brancos.len() implies eh_espaco_branco(#[trigger] brancos[i])
                && !eh_palavra(brancos[i]) by {
                assert(brancos[i] == ' ');
            }
            assert(x =~= w + (brancos + x2));
            assert forall|i: int|
                0 <= i < x2.len() && eh_espaco_branco(#[trigger] x2[i]) implies x2[i] == ' ' by {
                assert(x2[i] == x[k + j + i]);
            }
            if x2.len() > 0 {
                assert(x2[0] == resto[j]);
            }
            lemma_zeros_espacos_palavras(x2);
            assert((brancos + x2)[0] == ' ');
            lemma_zeros_concat(w, brancos + x2);
            lemma_zeros_prefixo(brancos, x2);
            let zx2 = tirar_zeros(x2);
            lemma_espacos_prefixo(zw, brancos + zx2);
            if x2.len() > 0 {
                lemma_zeros_primeiro(x2);
                let q = |c: char| eh_espaco_branco(c) ==> c == ' ';
                assert forall|i: int| 0 <= i < x2.len() implies q(#[trigger] x2[i]) by {}
                lemma_zeros_preserva(x2, q);
                assert(q(zx2[0]));
                assert(!eh_espaco_branco(zx2[0]));
            }
            lemma_espacos_brancos(brancos, zx2);
            assert(troca_brancos(brancos) =~= seq![' ']);
            assert(colapsar_espacos(tirar_zeros(x)) =~= zw + (seq![' '] + colapsar_espacos(zx2)));
            let d = brancos.drop_first();
            lemma_palavras_concat(w, ' ', d + x2);
            assert(w + seq![' '] + (d + x2) =~= x);
            assert forall|i: int| 0 <= i < d.len() implies eh_espaco_branco(#[trigger] d[i]) by {
                assert(d[i] == brancos[i + 1]);
            }
            lemma_palavras_brancos_inicio(d, x2);
            let p2 = palavras(x2);
            assert(palavras(x) == seq![w] + p2);
            assert(palavras(x).map_values(g) =~= seq![zw] + p2.map_values(g));
            if x2.len() > 0 {
                lemma_palavras_nao_vazias(x2, 0);
                lemma_unir_frente(zw, p2.map_values(g));
                assert(x.last() == x2.last());
                let tr = if eh_espaco_branco(x2.last()) {
                    seq![' ']
                } else {
                    e
                };
                assert(zw + (seq![' '] + (unir(p2.map_values(g)) + tr)) =~= zw + seq![' '] + unir(
                    p2.map_values(g),
                ) + tr);
            } else {
                assert(p2 =~= Seq::<Seq<char>>::empty());
                assert(palavras(x).map_values(g) =~= seq![zw]);
                assert(x.last() == brancos[j - 1]);
                assert(zx2 =~= e);
                assert(zw + (seq![' '] + e) =~= zw + seq![' ']);
            }
        }
    }
}

/// Refazer os espaços de um texto cujos espaços em branco são todos `' '` (unir
/// suas palavras por um único espaço) não muda o resultado da padronização.
pub proof fn lei_padronizar_espacos(v: Seq<char>)
    requires
        brancos_simples(v),
    ensures
        spec_padronizar(unir(palavras(v))) == spec_padronizar(v),
{
    let f = |c: char| maiuscula_sem_acento(c);
    assert forall|c: char| eh_espaco_branco(#[trigger] f(c)) == eh_espaco_branco(c) by {
        lemma_maiuscula_brancos(c);
    }
    let u = unir(palavras(v));
    lemma_palavras_bem_formadas(v);
    lemma_palavras_unir(palavras(v));
    lemma_unir_brancos(palavras(v));
    lemma_palavras_trocar(v, f);
    lemma_palavras_trocar(u, f);
    let mv = v.map_values(f);
    let mu = u.map_values(f);
    lemma_palavras_aparar(mv);
    lemma_palavras_aparar(mu);
    lemma_aparar_brancos_simples(v);
    lemma_aparar_brancos_simples(u);
    let nv = spec_normalizar(v);
    let nu = spec_normalizar(u);
    assert(palavras(nv) == palavras(nu));
    lemma_zeros_espacos_palavras(nv);
    lemma_zeros_espacos_palavras(nu);
}

/// O texto normalizado de um texto cujos espaços em branco são `' '` também só
/// tem `' '` como espaço em branco, e não começa nem termina por um.
proof fn lemma_aparar_brancos_simples(v: Seq<char>)
    requires
        forall|i: int|
            0 <= i < v.len() ==> eh_espaco_branco(#[trigger] v[i]) ==> v[i] == ' ',
    ensures
        brancos_simples(spec_normalizar(v)),
        spec_normalizar(v).len() == 0 || (!eh_espaco_branco(spec_normalizar(v)[0])
            && !eh_espaco_branco(spec_normalizar(v).last())),
{
    let f = |c: char| maiuscula_sem_acento(c);
    let mv = v.map_values(f);
    let (i, j) = crate::texto::lemma_aparar_limites(mv);
    let n = spec_normalizar(v);
    assert forall|q: int| 0 <= q < n.len() && eh_espaco_branco(#[trigger] n[q]) implies n[q] == ' ' by {
        assert(n[q] == mv[q + i]);
        assert(mv[q + i] == maiuscula_sem_acento(v[q + i]));
        lemma_maiuscula_brancos(v[q + i]);
    }
    if n.len() > 0 {
        assert(n[0] == mv[i]);
        assert(n.last() == mv[j - 1]);
    }
}

/// A terceira regra só deixa caracteres permitidos.
proof fn lemma_manter_permitidos_alfabeto(x: Seq<char>)
    ensures
        forall|i: int|
            0 <= i < manter_permitidos(x).len() ==> eh_permitido(#[trigger] manter_permitidos(x)[i]),
    decreases x.len(),
{
    if x.len() > 0 {
        lemma_manter_permitidos_alfabeto(x.drop_last());
        let r = manter_permitidos(x.drop_last());
        if eh_permitido(x.last()) {
            assert forall|i: int| 0 <= i < r.push(x.last()).len() implies eh_permitido(
                #[trigger] r.push(x.last())[i],
            ) by {
                if i < r.len() {
                    assert(r.push(x.last())[i] == r[i]);
                }
            }
        }
    }
}

/// O texto padronizado só tem espaços, letras maiúsculas ASCII, dígitos ASCII,
/// apóstrofos e hífens: todo outro caractere (pontuação, letras acentuadas que
/// sobraram, minúsculas, outros espaços em branco) foi removido.
pub proof fn lei_padronizar_alfabeto(s: Seq<char>)
    ensures
        forall|i: int|
            0 <= i < spec_padronizar(s).len() ==> (#[trigger] spec_padronizar(s)[i] == ' ' || ('A'
                <= spec_padronizar(s)[i] && spec_padronizar(s)[i] <= 'Z') || ('0' <= spec_padronizar(
            s,
            )[i] && spec_padronizar(s)[i] <= '9') || spec_padronizar(s)[i] == '\''
                || spec_padronizar(s)[i] == '-'),
{
    let x = manter_permitidos(colapsar_espacos(tirar_zeros(spec_normalizar(s))));
    lemma_manter_permitidos_alfabeto(colapsar_espacos(tirar_zeros(spec_normalizar(s))));
    let (i, j) = crate::texto::lemma_aparar_limites(x);
    let r = spec_padronizar(s);
    assert forall|q: int| 0 <= q < r.len() implies eh_permitido(#[trigger] r[q]) by {
        assert(r[q] == x[q + i]);
    }
}

/// A terceira regra não toca num texto feito só de espaços, letras maiúsculas
/// ASCII, dígitos ASCII, apóstrofos e hífens.
pub proof fn lei_manter_permitidos_preserva(x: Seq<char>)
    requires
        forall|i: int|
            0 <= i < x.len() ==> (#[trigger] x[i] == ' ' || ('A' <= x[i] && x[i] <= 'Z') || ('0'
                <= x[i] && x[i] <= '9') || x[i] == '\'' || x[i] == '-'),
    ensures
        manter_permitidos(x) == x,
    decreases x.len(),
{
    if x.len() > 0 {
        let y = x.drop_last();
        assert forall|i: int| 0 <= i < y.len() implies (#[trigger] y[i] == ' ' || ('A' <= y[i]
            && y[i] <= 'Z') || ('0' <= y[i] && y[i] <= '9') || y[i] == '\'' || y[i] == '-') by {
            assert(y[i] == x[i]);
        }
        lei_manter_permitidos_preserva(y);
        assert(x[x.len() - 1] == x.last());
        assert(y.push(x.last()) =~= x);
    }
}

} // verus!
