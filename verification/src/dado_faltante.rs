//! Identificação de dados faltantes: valores como `NAO POSSUI`, `S/ INFO` ou
//! `DESCONHECIDO`, que indicam que a informação não foi fornecida.
use vstd::prelude::*;
use crate::normalizacao::{normalizar_caracteres, spec_normalizar};
use crate::texto::{casa_literal, comeca_com, corrida_inicial, para_caracteres};

verus! {

/// Todos os caracteres de `s` são o espaço `' '`.
pub open spec fn so_espacos(s: Seq<char>) -> bool {
    forall|i: int| 0 <= i < s.len() ==> #[trigger] s[i] == ' '
}

/// Nenhum caractere de `s` é o espaço `' '`.
pub open spec fn sem_espaco(s: Seq<char>) -> bool {
    forall|i: int| 0 <= i < s.len() ==> #[trigger] s[i] != ' '
}

/// `s` é uma sequência (possivelmente vazia) de espaços seguida de um texto que
/// satisfaz `resto`: o ` *` de uma expressão regular.
pub open spec fn apos_espacos(s: Seq<char>, resto: spec_fn(Seq<char>) -> bool) -> bool {
    exists|k: int| 0 <= k <= s.len() && so_espacos(#[trigger] s.take(k)) && resto(s.skip(k))
}

/// Textos que começam por `w` e seguem sem espaço até o fim: o `w[^ ]*$`.
pub open spec fn termo_livre(w: Seq<char>) -> spec_fn(Seq<char>) -> bool {
    |x: Seq<char>| comeca_com(x, w) && sem_espaco(x.skip(w.len() as int))
}

/// Padrão `^(SI|NS|NI|NA)$`.
pub open spec fn padrao_sigla(s: Seq<char>) -> bool {
    s == "SI"@ || s == "NS"@ || s == "NI"@ || s == "NA"@
}

/// Padrão `^DESCON[^ ]*$`.
pub open spec fn padrao_desconhecido(s: Seq<char>) -> bool {
    termo_livre("DESCON"@)(s)
}

/// Padrão `^S(EM)? *INFO[^ ]*$`.
pub open spec fn padrao_sem_info(s: Seq<char>) -> bool {
    ||| comeca_com(s, "S"@) && apos_espacos(s.skip(1), termo_livre("INFO"@))
    ||| comeca_com(s, "SEM"@) && apos_espacos(s.skip(3), termo_livre("INFO"@))
}

/// O que segue `N(AO)? *` no padrão `^N(AO)? *(CONSTA|TEM|SEI)?$`.
pub open spec fn resto_nao_consta() -> spec_fn(Seq<char>) -> bool {
    |x: Seq<char>| x.len() == 0 || x == "CONSTA"@ || x == "TEM"@ || x == "SEI"@
}

/// O que segue `N(AO)? *` no padrão
/// `^N(AO)? *(POSSUI|LOCALIZ|ESPECIF|INFO|FORNEC|EXIST|PENS|LEMB|SAB)[^ ]*$`.
pub open spec fn resto_nao_verbo() -> spec_fn(Seq<char>) -> bool {
    |x: Seq<char>|
        {
            ||| termo_livre("POSSUI"@)(x)
            ||| termo_livre("LOCALIZ"@)(x)
            ||| termo_livre("ESPECIF"@)(x)
            ||| termo_livre("INFO"@)(x)
            ||| termo_livre("FORNEC"@)(x)
            ||| termo_livre("EXIST"@)(x)
            ||| termo_livre("PENS"@)(x)
            ||| termo_livre("LEMB"@)(x)
            ||| termo_livre("SAB"@)(x)
        }
}

/// O que segue `N(AO)? *` no padrão `^N(AO)? *SABE *INFO[^ ]*$`.
pub open spec fn resto_nao_sabe_info() -> spec_fn(Seq<char>) -> bool {
    |x: Seq<char>| comeca_com(x, "SABE"@) && apos_espacos(x.skip(4), termo_livre("INFO"@))
}

/// `s` é `N` ou `NAO`, seguido de espaços e de um texto que satisfaz `resto`:
/// o `^N(AO)? *` dos padrões de negação.
pub open spec fn padrao_negacao(s: Seq<char>, resto: spec_fn(Seq<char>) -> bool) -> bool {
    ||| comeca_com(s, "N"@) && apos_espacos(s.skip(1), resto)
    ||| comeca_com(s, "NAO"@) && apos_espacos(s.skip(3), resto)
}

/// `s` é reconhecido como dado faltante: casa com algum dos seis padrões.
pub open spec fn eh_dado_faltante_padrao(s: Seq<char>) -> bool {
    ||| padrao_sigla(s)
    ||| padrao_desconhecido(s)
    ||| padrao_sem_info(s)
    ||| padrao_negacao(s, resto_nao_consta())
    ||| padrao_negacao(s, resto_nao_verbo())
    ||| padrao_negacao(s, resto_nao_sabe_info())
}

/// Quando nenhum texto aceito por `resto` começa por espaço, o ` *` consome
/// todos os espaços iniciais: basta testar `resto` depois deles.
pub proof fn lemma_apos_espacos(s: Seq<char>, resto: spec_fn(Seq<char>) -> bool)
    requires
        forall|x: Seq<char>| #[trigger] resto(x) ==> x.len() == 0 || x[0] != ' ',
    ensures
        apos_espacos(s, resto) == resto(s.skip(corrida_inicial(s, |c: char| c == ' ') as int)),
{
    let p = |c: char| c == ' ';
    let m = corrida_inicial(s, p) as int;
    crate::texto::lemma_corrida_propriedades(s, p);
    assert(so_espacos(s.take(m)));
    if apos_espacos(s, resto) {
        let k = choose|k: int| 0 <= k <= s.len() && so_espacos(#[trigger] s.take(k)) && resto(s.skip(k));
        if k < m {
            assert(s.skip(k)[0] == s[k]);
        } else if k > m {
            assert(s.take(k)[m] == s[m]);
        }
    }
}

/// A posição do primeiro caractere diferente de `' '` a partir de `i`.
fn pular_espacos(s: &Vec<char>, i: usize) -> (j: usize)
    requires
        i <= s.len(),
    ensures
        i <= j <= s.len(),
        j - i == corrida_inicial(s@.skip(i as int), |c: char| c == ' '),
{
    let mut j = i;
    while j < s.len() && s[j] == ' '
        invariant
            i <= j <= s.len(),
            forall|q: int| i <= q < j ==> #[trigger] s@[q] == ' ',
        decreases s.len() - j,
    {
        j = j + 1;
    }
    proof {
        let t = s@.skip(i as int);
        assert forall|q: int| 0 <= q < j - i implies (|c: char| c == ' ')(#[trigger] t[q]) by {
            assert(t[q] == s@[q + i]);
        }
        if j < s.len() {
            assert(t[j - i] == s@[j as int]);
        }
        crate::texto::lemma_corrida_inicial(t, |c: char| c == ' ', (j - i) as int);
    }
    j
}

/// Decide se não há espaço em `s` a partir da posição `i`.
fn sem_espaco_desde(s: &Vec<char>, i: usize) -> (r: bool)
    requires
        i <= s.len(),
    ensures
        r == sem_espaco(s@.skip(i as int)),
{
    let mut j = i;
    while j < s.len()
        invariant
            i <= j <= s.len(),
            forall|q: int| i <= q < j ==> #[trigger] s@[q] != ' ',
        decreases s.len() - j,
    {
        if s[j] == ' ' {
            assert(s@.skip(i as int)[j - i] == ' ');
            return false;
        }
        j = j + 1;
    }
    assert forall|q: int| 0 <= q < s@.skip(i as int).len() implies #[trigger] s@.skip(
        i as int,
    )[q] != ' ' by {
        assert(s@.skip(i as int)[q] == s@[q + i]);
    }
    true
}

/// Decide se o texto a partir da posição `i` é aceito por [`termo_livre`]`(w)`.
fn termo_livre_desde(s: &Vec<char>, i: usize, w: &str) -> (r: bool)
    requires
        i <= s.len(),
    ensures
        r == termo_livre(w@)(s@.skip(i as int)),
{
    if casa_literal(s, i, w) {
        let n = w.unicode_len();
        assert(s@.skip(i as int).skip(n as int) =~= s@.skip(i + n));
        sem_espaco_desde(s, i + n)
    } else {
        false
    }
}


/// Nenhum texto aceito por [`termo_livre`]`(w)` começa por espaço, quando `w`
/// não começa por espaço.
proof fn lemma_termo_livre_nao_espaco(w: Seq<char>)
    requires
        w.len() > 0,
        w[0] != ' ',
    ensures
        forall|x: Seq<char>| #[trigger] termo_livre(w)(x) ==> x.len() == 0 || x[0] != ' ',
{
    assert forall|x: Seq<char>| #[trigger] termo_livre(w)(x) implies x.len() == 0 || x[0] != ' ' by {
        assert(x.take(w.len() as int)[0] == x[0]);
    }
}

/// O texto que segue `N(AO)? *` em cada um dos três padrões de negação.
pub open spec fn resto_por(qual: u8) -> spec_fn(Seq<char>) -> bool {
    if qual == 0 {
        resto_nao_consta()
    } else if qual == 1 {
        resto_nao_verbo()
    } else {
        resto_nao_sabe_info()
    }
}

/// Nenhum dos restos dos padrões de negação começa por espaço.
proof fn lemma_restos_nao_espaco(qual: u8)
    ensures
        forall|x: Seq<char>| #[trigger] resto_por(qual)(x) ==> x.len() == 0 || x[0] != ' ',
{
    reveal_strlit("CONSTA");
    reveal_strlit("TEM");
    reveal_strlit("SEI");
    reveal_strlit("POSSUI");
    reveal_strlit("LOCALIZ");
    reveal_strlit("ESPECIF");
    reveal_strlit("INFO");
    reveal_strlit("FORNEC");
    reveal_strlit("EXIST");
    reveal_strlit("PENS");
    reveal_strlit("LEMB");
    reveal_strlit("SAB");
    reveal_strlit("SABE");
    lemma_termo_livre_nao_espaco("POSSUI"@);
    lemma_termo_livre_nao_espaco("LOCALIZ"@);
    lemma_termo_livre_nao_espaco("ESPECIF"@);
    lemma_termo_livre_nao_espaco("INFO"@);
    lemma_termo_livre_nao_espaco("FORNEC"@);
    lemma_termo_livre_nao_espaco("EXIST"@);
    lemma_termo_livre_nao_espaco("PENS"@);
    lemma_termo_livre_nao_espaco("LEMB"@);
    lemma_termo_livre_nao_espaco("SAB"@);
    assert forall|x: Seq<char>| #[trigger] resto_por(qual)(x) implies x.len() == 0 || x[0] != ' ' by {
        if qual == 0 {
            if x.len() > 0 {
                assert(x == "CONSTA"@ || x == "TEM"@ || x == "SEI"@);
            }
        } else if qual == 1 {
            assert(termo_livre("POSSUI"@)(x) || termo_livre("LOCALIZ"@)(x) || termo_livre(
                "ESPECIF"@,
            )(x) || termo_livre("INFO"@)(x) || termo_livre("FORNEC"@)(x) || termo_livre(
                "EXIST"@,
            )(x) || termo_livre("PENS"@)(x) || termo_livre("LEMB"@)(x) || termo_livre("SAB"@)(x));
        } else {
            assert(comeca_com(x, "SABE"@));
            assert(x.take(4)[0] == x[0]);
        }
    }
}

/// Decide se o texto a partir de `j` é exatamente `w`.
fn igual_desde(s: &Vec<char>, j: usize, w: &str) -> (r: bool)
    requires
        j <= s.len(),
    ensures
        r == (s@.skip(j as int) == w@),
{
    let n = w.unicode_len();
    if s.len() - j == n {
        let r = casa_literal(s, j, w);
        assert(s@.skip(j as int).take(n as int) =~= s@.skip(j as int));
        r
    } else {
        false
    }
}

/// Decide se o texto a partir de `j` é aceito por [`resto_por`]`(qual)`.
fn resto_desde(s: &Vec<char>, j: usize, qual: u8) -> (r: bool)
    requires
        j <= s.len(),
    ensures
        r == resto_por(qual)(s@.skip(j as int)),
{
    if qual == 0 {
        j == s.len() || igual_desde(s, j, "CONSTA") || igual_desde(s, j, "TEM") || igual_desde(
            s,
            j,
            "SEI",
        )
    } else if qual == 1 {
        termo_livre_desde(s, j, "POSSUI") || termo_livre_desde(s, j, "LOCALIZ")
            || termo_livre_desde(s, j, "ESPECIF") || termo_livre_desde(s, j, "INFO")
            || termo_livre_desde(s, j, "FORNEC") || termo_livre_desde(s, j, "EXIST")
            || termo_livre_desde(s, j, "PENS") || termo_livre_desde(s, j, "LEMB")
            || termo_livre_desde(s, j, "SAB")
    } else {
        if casa_literal(s, j, "SABE") {
            proof {
                reveal_strlit("SABE");
                reveal_strlit("INFO");
                lemma_termo_livre_nao_espaco("INFO"@);
            }
            assert(s@.skip(j as int).skip(4) =~= s@.skip(j + 4));
            let k = pular_espacos(s, j + 4);
            proof {
                lemma_apos_espacos(s@.skip(j + 4), termo_livre("INFO"@));
                assert(s@.skip(j + 4).skip(k - (j + 4)) =~= s@.skip(k as int));
            }
            termo_livre_desde(s, k, "INFO")
        } else {
            false
        }
    }
}

/// Decide [`padrao_negacao`]`(s, resto_por(qual))`.
fn negacao(s: &Vec<char>, qual: u8) -> (r: bool)
    ensures
        r == padrao_negacao(s@, resto_por(qual)),
{
    proof {
        lemma_restos_nao_espaco(qual);
        reveal_strlit("N");
        reveal_strlit("NAO");
    }
    let com_n = if casa_literal(s, 0, "N") {
        assert(s@.skip(0) =~= s@);
        let k = pular_espacos(s, 1);
        proof {
            lemma_apos_espacos(s@.skip(1), resto_por(qual));
            assert(s@.skip(1).skip(k - 1) =~= s@.skip(k as int));
        }
        resto_desde(s, k, qual)
    } else {
        assert(s@.skip(0) =~= s@);
        false
    };
    let com_nao = if casa_literal(s, 0, "NAO") {
        let k = pular_espacos(s, 3);
        proof {
            lemma_apos_espacos(s@.skip(3), resto_por(qual));
            assert(s@.skip(3).skip(k - 3) =~= s@.skip(k as int));
        }
        resto_desde(s, k, qual)
    } else {
        false
    };
    com_n || com_nao
}

/// Decide [`padrao_sem_info`].
fn sem_info(s: &Vec<char>) -> (r: bool)
    ensures
        r == padrao_sem_info(s@),
{
    proof {
        reveal_strlit("S");
        reveal_strlit("SEM");
        reveal_strlit("INFO");
        lemma_termo_livre_nao_espaco("INFO"@);
    }
    assert(s@.skip(0) =~= s@);
    let com_s = if casa_literal(s, 0, "S") {
        let k = pular_espacos(s, 1);
        proof {
            lemma_apos_espacos(s@.skip(1), termo_livre("INFO"@));
            assert(s@.skip(1).skip(k - 1) =~= s@.skip(k as int));
        }
        termo_livre_desde(s, k, "INFO")
    } else {
        false
    };
    let com_sem = if casa_literal(s, 0, "SEM") {
        let k = pular_espacos(s, 3);
        proof {
            lemma_apos_espacos(s@.skip(3), termo_livre("INFO"@));
            assert(s@.skip(3).skip(k - 3) =~= s@.skip(k as int));
        }
        termo_livre_desde(s, k, "INFO")
    } else {
        false
    };
    com_s || com_sem
}

/// Um dos padrões de dado faltante.
#[derive(Clone, Copy, Debug)]
pub enum Padrao {
    /// `^(SI|NS|NI|NA)$`
    Sigla,
    /// `^DESCON[^ ]*$`
    Desconhecido,
    /// `^S(EM)? *INFO[^ ]*$`
    SemInfo,
    /// `^N(AO)? *(CONSTA|TEM|SEI)?$`
    NaoConsta,
    /// `^N(AO)? *(POSSUI|LOCALIZ|ESPECIF|INFO|FORNEC|EXIST|PENS|LEMB|SAB)[^ ]*$`
    NaoVerbo,
    /// `^N(AO)? *SABE *INFO[^ ]*$`
    NaoSabeInfo,
}

/// `s` casa com o padrão `p`.
pub open spec fn casa_padrao(p: Padrao, s: Seq<char>) -> bool {
    match p {
        Padrao::Sigla => padrao_sigla(s),
        Padrao::Desconhecido => padrao_desconhecido(s),
        Padrao::SemInfo => padrao_sem_info(s),
        Padrao::NaoConsta => padrao_negacao(s, resto_nao_consta()),
        Padrao::NaoVerbo => padrao_negacao(s, resto_nao_verbo()),
        Padrao::NaoSabeInfo => padrao_negacao(s, resto_nao_sabe_info()),
    }
}

/// `s` casa com algum dos padrões de `ps`.
pub open spec fn casa_algum(ps: Seq<Padrao>, s: Seq<char>) -> bool
    decreases ps.len(),
{
    ps.len() > 0 && (casa_algum(ps.drop_last(), s) || casa_padrao(ps.last(), s))
}

/// Os padrões de dado faltante, nesta ordem.
pub open spec fn padroes_dado_faltante() -> Seq<Padrao> {
    seq![
        Padrao::Sigla,
        Padrao::Desconhecido,
        Padrao::SemInfo,
        Padrao::NaoConsta,
        Padrao::NaoVerbo,
        Padrao::NaoSabeInfo,
    ]
}

/// Casar com algum dos padrões de dado faltante é casar com um dos seis.
pub proof fn lemma_padroes_dado_faltante(s: Seq<char>)
    ensures
        casa_algum(padroes_dado_faltante(), s) == eh_dado_faltante_padrao(s),
{
    let ps = padroes_dado_faltante();
    assert(ps.drop_last() =~= seq![
        Padrao::Sigla,
        Padrao::Desconhecido,
        Padrao::SemInfo,
        Padrao::NaoConsta,
        Padrao::NaoVerbo,
    ]);
    assert(ps.drop_last().drop_last() =~= seq![
        Padrao::Sigla,
        Padrao::Desconhecido,
        Padrao::SemInfo,
        Padrao::NaoConsta,
    ]);
    assert(ps.drop_last().drop_last().drop_last() =~= seq![
        Padrao::Sigla,
        Padrao::Desconhecido,
        Padrao::SemInfo,
    ]);
    assert(ps.drop_last().drop_last().drop_last().drop_last() =~= seq![
        Padrao::Sigla,
        Padrao::Desconhecido,
    ]);
    assert(ps.drop_last().drop_last().drop_last().drop_last().drop_last() =~= seq![
        Padrao::Sigla,
    ]);
    assert(ps.drop_last().drop_last().drop_last().drop_last().drop_last().drop_last()
        =~= Seq::<Padrao>::empty());
    reveal_with_fuel(casa_algum, 7);
}

/// Decide [`casa_padrao`] sobre os caracteres de um texto.
fn casa_padrao_exec(p: Padrao, s: &Vec<char>) -> (r: bool)
    ensures
        r == casa_padrao(p, s@),
{
    assert(s@.skip(0) =~= s@);
    match p {
        Padrao::Sigla => igual_desde(s, 0, "SI") || igual_desde(s, 0, "NS") || igual_desde(
            s,
            0,
            "NI",
        ) || igual_desde(s, 0, "NA"),
        Padrao::Desconhecido => termo_livre_desde(s, 0, "DESCON"),
        Padrao::SemInfo => sem_info(s),
        Padrao::NaoConsta => negacao(s, 0),
        Padrao::NaoVerbo => negacao(s, 1),
        Padrao::NaoSabeInfo => negacao(s, 2),
    }
}

/// Reconhecedor de dados faltantes: uma lista de padrões.
pub struct IdentificadorDadoFaltante {
    /// Os padrões reconhecidos.
    pub padroes: Vec<Padrao>,
}

/// Cria o reconhecedor de dados faltantes, com os padrões `^(SI|NS|NI|NA)$`,
/// `^DESCON[^ ]*$`, `^S(EM)? *INFO[^ ]*$`, `^N(AO)? *(CONSTA|TEM|SEI)?$`,
/// `^N(AO)? *(POSSUI|LOCALIZ|ESPECIF|INFO|FORNEC|EXIST|PENS|LEMB|SAB)[^ ]*$` e
/// `^N(AO)? *SABE *INFO[^ ]*$`.
pub fn criar_identificador_dado_faltante() -> (r: IdentificadorDadoFaltante)
    ensures
        r.padroes@ == padroes_dado_faltante(),
{
    let padroes = vec![
        Padrao::Sigla,
        Padrao::Desconhecido,
        Padrao::SemInfo,
        Padrao::NaoConsta,
        Padrao::NaoVerbo,
        Padrao::NaoSabeInfo,
    ];
    assert(padroes@ =~= padroes_dado_faltante());
    IdentificadorDadoFaltante { padroes }
}

impl IdentificadorDadoFaltante {
    /// Diz se o texto casa com algum dos padrões.
    fn identificar_caracteres(&self, s: &Vec<char>) -> (r: bool)
        ensures
            r == casa_algum(self.padroes@, s@),
    {
        let mut r = false;
        let mut i: usize = 0;
        while i < self.padroes.len()
            invariant
                i <= self.padroes.len(),
                r == casa_algum(self.padroes@.take(i as int), s@),
            decreases self.padroes.len() - i,
        {
            let p = self.padroes[i];
            let c = casa_padrao_exec(p, s);
            assert(self.padroes@.take(i + 1).drop_last() =~= self.padroes@.take(i as int));
            r = r || c;
            i = i + 1;
        }
        assert(self.padroes@.take(self.padroes.len() as int) =~= self.padroes@);
        r
    }

    /// Diz se o valor casa com algum dos padrões.
    pub fn identificar(&self, valor: &str) -> (r: bool)
        ensures
            r == casa_algum(self.padroes@, valor@),
    {
        let v = para_caracteres(valor);
        self.identificar_caracteres(&v)
    }
}

/// Diz se o valor, depois de normalizado, indica um dado faltante.
pub fn is_dado_faltante(valor: &str) -> (r: bool)
    ensures
        r == eh_dado_faltante_padrao(spec_normalizar(valor@)),
{
    let identificador = criar_identificador_dado_faltante();
    let v = para_caracteres(valor);
    let n = normalizar_caracteres(&v);
    proof {
        lemma_padroes_dado_faltante(n@);
    }
    identificador.identificar_caracteres(&n)
}

/// O texto vazio, se `v` indica um dado faltante; `v`, do contrário.
pub open spec fn spec_zerar(v: Seq<char>) -> Seq<char> {
    if eh_dado_faltante_padrao(v) {
        Seq::empty()
    } else {
        v
    }
}

/// Devolve o texto vazio se o valor (tal como veio) indica um dado faltante, e
/// o próprio valor do contrário.
pub fn zerar_dado_faltante(valor: String) -> (r: String)
    ensures
        r@ == spec_zerar(valor@),
{
    let identificador = criar_identificador_dado_faltante();
    proof {
        lemma_padroes_dado_faltante(valor@);
    }
    if identificador.identificar(valor.as_str()) {
        String::new()
    } else {
        valor
    }
}


/// Para um valor cuja normalização não é vazia, ele é dado faltante exatamente
/// quando zerar sua forma normalizada dá o texto vazio.
pub proof fn lei_zerar_normalizado(valor: Seq<char>)
    requires
        spec_normalizar(valor).len() > 0,
    ensures
        eh_dado_faltante_padrao(spec_normalizar(valor)) <==> spec_zerar(spec_normalizar(valor)).len()
            == 0,
{
}

/// Normalizar antes de perguntar não muda a resposta: `is_dado_faltante` dá o
/// mesmo para o valor e para sua forma normalizada.
pub proof fn lei_dado_faltante_normalizado(valor: Seq<char>)
    ensures
        eh_dado_faltante_padrao(spec_normalizar(spec_normalizar(valor))) == eh_dado_faltante_padrao(
            spec_normalizar(valor),
        ),
{
    crate::normalizacao::lei_normalizar_idempotente(valor);
}

/// `is_dado_faltante` não distingue caixa das letras ASCII nem espaços em branco
/// nas pontas.
pub proof fn lei_dado_faltante_caixa_e_pontas(a: Seq<char>, s: Seq<char>, b: Seq<char>)
    requires
        crate::texto::so_brancos(a),
        crate::texto::so_brancos(b),
    ensures
        eh_dado_faltante_padrao(spec_normalizar(a + s + b)) == eh_dado_faltante_padrao(
            spec_normalizar(s),
        ),
        eh_dado_faltante_padrao(spec_normalizar(crate::normalizacao::minusculas_ascii(s)))
            == eh_dado_faltante_padrao(spec_normalizar(s)),
{
    crate::normalizacao::lei_normalizar_ignora_pontas(a, s, b);
    crate::normalizacao::lei_normalizar_ignora_caixa(s);
}

/// Os termos que, depois de `N` ou `NAO` e de espaços, indicam dado faltante
/// seguidos de qualquer texto sem espaço.
pub open spec fn verbo_de_negacao(w: Seq<char>) -> bool {
    ||| w == "POSSUI"@
    ||| w == "LOCALIZ"@
    ||| w == "ESPECIF"@
    ||| w == "INFO"@
    ||| w == "FORNEC"@
    ||| w == "EXIST"@
    ||| w == "PENS"@
    ||| w == "LEMB"@
    ||| w == "SAB"@
}

/// Um termo seguido de uma cauda sem espaço satisfaz [`termo_livre`].
proof fn lemma_termo_com_cauda(w: Seq<char>, t: Seq<char>)
    requires
        forall|i: int| 0 <= i < t.len() ==> #[trigger] t[i] != ' ',
    ensures
        termo_livre(w)(w + t),
{
    assert((w + t).take(w.len() as int) =~= w);
    assert((w + t).skip(w.len() as int) =~= t);
}

/// `e` (só espaços) seguido de um texto aceito por `resto` satisfaz [`apos_espacos`].
proof fn lemma_espacos_e_resto(e: Seq<char>, x: Seq<char>, resto: spec_fn(Seq<char>) -> bool)
    requires
        forall|i: int| 0 <= i < e.len() ==> #[trigger] e[i] == ' ',
        resto(x),
    ensures
        apos_espacos(e + x, resto),
{
    let k = e.len() as int;
    assert((e + x).take(k) =~= e);
    assert((e + x).skip(k) =~= x);
    assert(so_espacos((e + x).take(k)));
}

/// Depois dos termos dos padrões, qualquer cauda sem o caractere espaço é aceita:
/// `DESCON` + cauda, `S`/`SEM` + espaços + `INFO` + cauda, `N`/`NAO` + espaços +
/// um dos verbos + cauda e `N`/`NAO` + espaços + `SABE` + espaços + `INFO` +
/// cauda são dados faltantes (como `NAO INFORMADO.` ou `DESCONHECIDO(A)`).
pub proof fn lei_dado_faltante_cauda(e: Seq<char>, e2: Seq<char>, w: Seq<char>, t: Seq<char>)
    requires
        forall|i: int| 0 <= i < e.len() ==> #[trigger] e[i] == ' ',
        forall|i: int| 0 <= i < e2.len() ==> #[trigger] e2[i] == ' ',
        verbo_de_negacao(w),
        forall|i: int| 0 <= i < t.len() ==> #[trigger] t[i] != ' ',
    ensures
        eh_dado_faltante_padrao("DESCON"@ + t),
        eh_dado_faltante_padrao("S"@ + e + "INFO"@ + t),
        eh_dado_faltante_padrao("SEM"@ + e + "INFO"@ + t),
        eh_dado_faltante_padrao("N"@ + e + w + t),
        eh_dado_faltante_padrao("NAO"@ + e + w + t),
        eh_dado_faltante_padrao("N"@ + e + "SABE"@ + e2 + "INFO"@ + t),
        eh_dado_faltante_padrao("NAO"@ + e + "SABE"@ + e2 + "INFO"@ + t),
{
    reveal_strlit("DESCON");
    reveal_strlit("S");
    reveal_strlit("SEM");
    reveal_strlit("INFO");
    reveal_strlit("N");
    reveal_strlit("NAO");
    reveal_strlit("SABE");
    lemma_termo_com_cauda("DESCON"@, t);
    lemma_termo_com_cauda("INFO"@, t);
    lemma_termo_com_cauda(w, t);
    let livre_info = termo_livre("INFO"@);
    // DESCON
    assert(padrao_desconhecido("DESCON"@ + t));
    // S / SEM
    lemma_espacos_e_resto(e, "INFO"@ + t, livre_info);
    let x1 = "S"@ + e + "INFO"@ + t;
    assert(x1 =~= "S"@ + (e + ("INFO"@ + t)));
    assert(x1.take(1) =~= "S"@);
    assert(x1.skip(1) =~= e + ("INFO"@ + t));
    assert(padrao_sem_info(x1));
    let x2 = "SEM"@ + e + "INFO"@ + t;
    assert(x2.take(3) =~= "SEM"@);
    assert(x2.skip(3) =~= e + ("INFO"@ + t));
    assert(padrao_sem_info(x2));
    // verbos
    assert(resto_nao_verbo()(w + t));
    lemma_espacos_e_resto(e, w + t, resto_nao_verbo());
    let x3 = "N"@ + e + w + t;
    assert(x3.take(1) =~= "N"@);
    assert(x3.skip(1) =~= e + (w + t));
    assert(padrao_negacao(x3, resto_nao_verbo()));
    let x4 = "NAO"@ + e + w + t;
    assert(x4.take(3) =~= "NAO"@);
    assert(x4.skip(3) =~= e + (w + t));
    assert(padrao_negacao(x4, resto_nao_verbo()));
    // SABE INFO
    lemma_espacos_e_resto(e2, "INFO"@ + t, livre_info);
    let y = "SABE"@ + e2 + "INFO"@ + t;
    assert(y.take(4) =~= "SABE"@);
    assert(y.skip(4) =~= e2 + ("INFO"@ + t));
    assert(resto_nao_sabe_info()(y));
    lemma_espacos_e_resto(e, y, resto_nao_sabe_info());
    let x5 = "N"@ + e + "SABE"@ + e2 + "INFO"@ + t;
    assert(x5.take(1) =~= "N"@);
    assert(x5.skip(1) =~= e + y);
    assert(padrao_negacao(x5, resto_nao_sabe_info()));
    let x6 = "NAO"@ + e + "SABE"@ + e2 + "INFO"@ + t;
    assert(x6.take(3) =~= "NAO"@);
    assert(x6.skip(3) =~= e + y);
    assert(padrao_negacao(x6, resto_nao_sabe_info()));
}

} // verus!
