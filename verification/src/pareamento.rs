//! Padronização agressiva de nomes de municípios, usada para parear grafias
//! diferentes do mesmo nome, e as grafias alternativas de nomes com apóstrofo.
use vstd::prelude::*;
use crate::colecoes::{
    conjunto_inserir, conjunto_vazio, conteudo_conjunto, estritamente_crescente, ordenar_conjunto,
    vistas,
};
use crate::fonetica::{fonetica, spec_fonetica};
use crate::texto::{
    aparar, de_caracteres, eh_espaco_branco, espaco_branco, igual_literal, lemma_aparar_limites,
    para_caracteres, so_brancos,
};

verus! {

/// Primeiro passo: hífens viram espaços.
pub open spec fn trocar_hifens(s: Seq<char>) -> Seq<char> {
    s.map_values(|c: char| if c == '-' { ' ' } else { c })
}

/// O caractere na posição `i` sobrevive à remoção de letras repetidas: é o
/// primeiro, ou difere do anterior, ou é `S` ou `R` (que podem se repetir).
pub open spec fn fica_na_deduplicacao(s: Seq<char>, i: int) -> bool {
    i == 0 || s[i] != s[i - 1] || s[i] == 'S' || s[i] == 'R'
}

/// Segundo passo: remove cada caractere igual ao anterior, exceto `S` e `R`.
pub open spec fn sem_repetidas(s: Seq<char>) -> Seq<char>
    decreases s.len(),
{
    if s.len() == 0 {
        s
    } else if fica_na_deduplicacao(s, s.len() - 1) {
        sem_repetidas(s.drop_last()).push(s.last())
    } else {
        sem_repetidas(s.drop_last())
    }
}

/// As palavras de `s`: as sequências máximas de caracteres que não são espaço
/// em branco, em ordem (o que `split_whitespace` devolve).
pub open spec fn palavras(s: Seq<char>) -> Seq<Seq<char>>
    decreases s.len(),
{
    if s.len() == 0 {
        Seq::empty()
    } else {
        let p = palavras(s.drop_last());
        if eh_espaco_branco(s.last()) {
            p
        } else if s.len() >= 2 && !eh_espaco_branco(s[s.len() - 2]) && p.len() > 0 {
            p.update(p.len() - 1, p.last().push(s.last()))
        } else {
            p.push(seq![s.last()])
        }
    }
}

/// As preposições e conjunções ignoradas no pareamento.
pub open spec fn eh_preposicao(w: Seq<char>) -> bool {
    w == "DE"@ || w == "DA"@ || w == "DO"@ || w == "DAS"@ || w == "DOS"@ || w == "DEL"@ || w
        == "E"@
}

/// Terceiro passo: as palavras que não são preposições, unidas por um espaço.
pub open spec fn juntar_sem_preposicoes(ws: Seq<Seq<char>>) -> Seq<char>
    decreases ws.len(),
{
    if ws.len() == 0 {
        Seq::empty()
    } else {
        let r = juntar_sem_preposicoes(ws.drop_last());
        if eh_preposicao(ws.last()) {
            r
        } else if r.len() == 0 {
            ws.last()
        } else {
            r + seq![' '] + ws.last()
        }
    }
}

/// A chave de pareamento de um nome já padronizado: hífens viram espaços, letras
/// repetidas são reduzidas, preposições são removidas e o resultado vira chave
/// fonética.
pub open spec fn spec_pareamento(s: Seq<char>) -> Seq<char> {
    spec_fonetica(juntar_sem_preposicoes(palavras(sem_repetidas(trocar_hifens(s)))))
}

/// A palavra é uma das preposições de [`eh_preposicao`].
fn preposicao(w: &Vec<char>) -> (r: bool)
    ensures
        r == eh_preposicao(w@),
{
    igual_literal(w, "DE") || igual_literal(w, "DA") || igual_literal(w, "DO") || igual_literal(
        w,
        "DAS",
    ) || igual_literal(w, "DOS") || igual_literal(w, "DEL") || igual_literal(w, "E")
}

/// Aplica o primeiro passo ([`trocar_hifens`]).
fn trocar_hifens_exec(s: &Vec<char>) -> (a: Vec<char>)
    ensures
        a@ == trocar_hifens(s@),
{
    let mut a: Vec<char> = Vec::new();
    let mut i: usize = 0;
    while i < s.len()
        invariant
            i <= s.len(),
            a@ == trocar_hifens(s@.take(i as int)),
        decreases s.len() - i,
    {
        a.push(if s[i] == '-' { ' ' } else { s[i] });
        assert(trocar_hifens(s@.take(i + 1)) =~= trocar_hifens(s@.take(i as int)).push(
            if s@[i as int] == '-' { ' ' } else { s@[i as int] },
        ));
        i = i + 1;
    }
    assert(s@.take(s.len() as int) =~= s@);
    a
}

/// Aplica o segundo passo ([`sem_repetidas`]).
fn sem_repetidas_exec(a: &Vec<char>) -> (b: Vec<char>)
    ensures
        b@ == sem_repetidas(a@),
{
    let mut b: Vec<char> = Vec::new();
    let mut i: usize = 0;
    while i < a.len()
        invariant
            i <= a.len(),
            b@ == sem_repetidas(a@.take(i as int)),
        decreases a.len() - i,
    {
        let c = a[i];
        let ghost t = a@.take(i + 1);
        assert(t.drop_last() =~= a@.take(i as int));
        if i > 0 {
            assert(t[i - 1] == a@[i - 1]);
        }
        if i == 0 || c != a[i - 1] || c == 'S' || c == 'R' {
            b.push(c);
        }
        i = i + 1;
    }
    assert(a@.take(a.len() as int) =~= a@);
    b
}

/// Separa as [`palavras`] de um texto.
fn palavras_exec(b: &Vec<char>) -> (ws: Vec<Vec<char>>)
    ensures
        vistas_palavras(ws@) == palavras(b@),
{
    let mut ws: Vec<Vec<char>> = Vec::new();
    let mut atual: Vec<char> = Vec::new();
    let mut dentro = false;
    let mut i: usize = 0;
    while i < b.len()
        invariant
            i <= b.len(),
            dentro ==> i > 0 && !eh_espaco_branco(b@[i - 1]) && atual@.len() > 0,
            !dentro ==> (i == 0 || eh_espaco_branco(b@[i - 1])) && atual@.len() == 0,
            palavras(b@.take(i as int)) == (if dentro {
                vistas_palavras(ws@).push(atual@)
            } else {
                vistas_palavras(ws@)
            }),
        decreases b.len() - i,
    {
        let c = b[i];
        let ghost t = b@.take(i + 1);
        assert(t.drop_last() =~= b@.take(i as int));
        if i > 0 {
            assert(t[i - 1] == b@[i - 1]);
        }
        if espaco_branco(c) {
            if dentro {
                proof {
                    assert(vistas_palavras(ws@.push(atual)) =~= vistas_palavras(ws@).push(atual@));
                }
                ws.push(atual);
                atual = Vec::new();
                dentro = false;
            }
        } else {
            let ghost antes = atual@;
            atual.push(c);
            if dentro {
                assert(vistas_palavras(ws@).push(antes).update(
                    vistas_palavras(ws@).len() as int,
                    antes.push(c),
                ) =~= vistas_palavras(ws@).push(atual@));
            } else {
                assert(atual@ =~= seq![c]);
            }
            dentro = true;
        }
        i = i + 1;
    }
    assert(b@.take(b.len() as int) =~= b@);
    if dentro {
        proof {
            assert(vistas_palavras(ws@.push(atual)) =~= vistas_palavras(ws@).push(atual@));
        }
        ws.push(atual);
    }
    ws
}

/// Aplica o terceiro passo ([`juntar_sem_preposicoes`]).
fn juntar_exec(ws: &Vec<Vec<char>>) -> (d: Vec<char>)
    ensures
        d@ == juntar_sem_preposicoes(vistas_palavras(ws@)),
{
    let mut d: Vec<char> = Vec::new();
    let mut k: usize = 0;
    while k < ws.len()
        invariant
            k <= ws.len(),
            d@ == juntar_sem_preposicoes(vistas_palavras(ws@).take(k as int)),
        decreases ws.len() - k,
    {
        let ghost p = vistas_palavras(ws@).take(k + 1);
        assert(p.drop_last() =~= vistas_palavras(ws@).take(k as int));
        assert(p.last() == ws@[k as int]@);
        if !preposicao(&ws[k]) {
            let ghost antes = d@;
            if d.len() > 0 {
                d.push(' ');
            }
            crate::texto::anexar_trecho(&mut d, &ws[k], 0, ws[k].len());
            assert(ws@[k as int]@.subrange(0, ws@[k as int]@.len() as int) =~= ws@[k as int]@);
            proof {
                if antes.len() > 0 {
                    assert(antes.push(' ') + ws@[k as int]@ =~= antes + seq![' '] + ws@[k as int]@);
                } else {
                    assert(d@ =~= ws@[k as int]@);
                }
            }
        }
        k = k + 1;
    }
    assert(vistas_palavras(ws@).take(ws.len() as int) =~= vistas_palavras(ws@));
    d
}

/// Calcula a chave de pareamento ([`spec_pareamento`]) dos caracteres de um nome.
pub fn pareamento_caracteres(s: &Vec<char>) -> (r: Vec<char>)
    ensures
        r@ == spec_pareamento(s@),
{
    let a = trocar_hifens_exec(s);
    let b = sem_repetidas_exec(&a);
    let ws = palavras_exec(&b);
    let d = juntar_exec(&ws);
    fonetica(&d)
}

/// As sequências de caracteres de um vetor de palavras.
pub open spec fn vistas_palavras(ws: Seq<Vec<char>>) -> Seq<Seq<char>> {
    ws.map_values(|w: Vec<char>| w@)
}

/// Chave de pareamento de um nome de município já padronizado (sem acentos, em
/// caixa alta, sem pontuação além de hífen e apóstrofo).
pub fn padronizar_para_pareamento(mun: &str) -> (r: String)
    ensures
        r@ == spec_pareamento(mun@),
{
    let s = para_caracteres(mun);
    let p = pareamento_caracteres(&s);
    de_caracteres(&p)
}


/// `m` tem algum apóstrofo.
pub open spec fn contem_apostrofo(m: Seq<char>) -> bool {
    exists|i: int| 0 <= i < m.len() && m[i] == '\''
}

/// `m` com cada apóstrofo trocado por `r`.
pub open spec fn apostrofos_por(m: Seq<char>, r: Seq<char>) -> Seq<char>
    decreases m.len(),
{
    if m.len() == 0 {
        m
    } else if m.last() == '\'' {
        apostrofos_por(m.drop_last(), r) + r
    } else {
        apostrofos_por(m.drop_last(), r).push(m.last())
    }
}

/// A grafia que expande o apóstrofo da posição `i`: o que vem antes dele, o
/// caractere seguinte (se houver e for ASCII), um espaço e o que vem depois
/// dele. Em `SANT'ANA`, dá `SANTA ANA`.
pub open spec fn expansao_em(m: Seq<char>, i: int) -> Seq<char> {
    m.take(i) + (if i + 1 < m.len() && (m[i + 1] as u32) < 0x80 {
        seq![m[i + 1]]
    } else {
        Seq::empty()
    }) + seq![' '] + m.skip(i + 1)
}

/// As chaves de pareamento das expansões dos apóstrofos de `m` nas posições
/// anteriores a `n`.
pub open spec fn expansoes_ate(m: Seq<char>, n: int) -> Set<Seq<char>> {
    Set::new(
        |x: Seq<char>|
            exists|i: int| 0 <= i < n && m[i] == '\'' && x == #[trigger] spec_pareamento(expansao_em(m, i)),
    )
}

/// As grafias alternativas de um nome com apóstrofo: com o apóstrofo trocado
/// por espaço, sem o apóstrofo, e, para cada apóstrofo, a chave de pareamento
/// da sua expansão. Um nome sem apóstrofo não tem alternativas.
pub open spec fn alternativas(m: Seq<char>) -> Set<Seq<char>> {
    if contem_apostrofo(m) {
        set![apostrofos_por(m, seq![' ']), apostrofos_por(m, Seq::empty())].union(
            expansoes_ate(m, m.len() as int),
        )
    } else {
        Set::empty()
    }
}

/// `s` com cada apóstrofo trocado por um espaço (se `espaco`) ou removido.
fn trocar_apostrofos(s: &Vec<char>, espaco: bool) -> (r: Vec<char>)
    ensures
        r@ == apostrofos_por(
            s@,
            if espaco {
                seq![' ']
            } else {
                Seq::empty()
            },
        ),
{
    let ghost por = if espaco {
        seq![' ']
    } else {
        Seq::<char>::empty()
    };
    let mut r: Vec<char> = Vec::new();
    let mut i: usize = 0;
    while i < s.len()
        invariant
            i <= s.len(),
            por == (if espaco {
                seq![' ']
            } else {
                Seq::<char>::empty()
            }),
            r@ == apostrofos_por(s@.take(i as int), por),
        decreases s.len() - i,
    {
        assert(s@.take(i + 1).drop_last() =~= s@.take(i as int));
        if s[i] == '\'' {
            if espaco {
                r.push(' ');
                assert(apostrofos_por(s@.take(i as int), por).push(' ') =~= apostrofos_por(
                    s@.take(i as int),
                    por,
                ) + por);
            } else {
                assert(apostrofos_por(s@.take(i as int), por) + por =~= apostrofos_por(
                    s@.take(i as int),
                    por,
                ));
            }
        } else {
            r.push(s[i]);
        }
        i = i + 1;
    }
    assert(s@.take(s.len() as int) =~= s@);
    r
}

/// A expansão ([`expansao_em`]) do apóstrofo na posição `i`.
fn expandir(s: &Vec<char>, i: usize) -> (r: Vec<char>)
    requires
        i < s.len(),
    ensures
        r@ == expansao_em(s@, i as int),
{
    let mut r: Vec<char> = Vec::new();
    crate::texto::anexar_trecho(&mut r, s, 0, i);
    let ghost a = r@;
    if i + 1 < s.len() && (s[i + 1] as u32) < 0x80 {
        r.push(s[i + 1]);
    }
    let ghost b = r@;
    r.push(' ');
    let ghost c = r@;
    crate::texto::anexar_trecho(&mut r, s, i + 1, s.len());
    assert(s@.subrange(0, i as int) =~= s@.take(i as int));
    assert(s@.subrange(i + 1, s@.len() as int) =~= s@.skip(i + 1));
    assert(r@ =~= expansao_em(s@, i as int));
    r
}

/// As grafias alternativas de um nome com apóstrofo ([`alternativas`]), sem
/// repetição e em ordem crescente.
pub fn nomes_alternativos(mun: &str) -> (r: Vec<String>)
    ensures
        estritamente_crescente(vistas(r@)),
        vistas(r@).to_set() == alternativas(mun@),
{
    let s = para_caracteres(mun);
    let mut conj = conjunto_vazio();
    let mut tem = false;
    let mut i: usize = 0;
    while i < s.len()
        invariant
            i <= s.len(),
            tem == (exists|j: int| 0 <= j < i && s@[j] == '\''),
        decreases s.len() - i,
    {
        if s[i] == '\'' {
            tem = true;
        }
        i = i + 1;
    }
    if tem {
        let com_espaco = trocar_apostrofos(&s, true);
        conjunto_inserir(&mut conj, de_caracteres(&com_espaco));
        let sem = trocar_apostrofos(&s, false);
        conjunto_inserir(&mut conj, de_caracteres(&sem));
        let ghost base = set![apostrofos_por(s@, seq![' ']), apostrofos_por(s@, Seq::empty())];
        assert(conteudo_conjunto(conj) =~= base.union(expansoes_ate(s@, 0)));
        let mut i: usize = 0;
        while i < s.len()
            invariant
                i <= s.len(),
                base == set![apostrofos_por(s@, seq![' ']), apostrofos_por(s@, Seq::empty())],
                conteudo_conjunto(conj) == base.union(expansoes_ate(s@, i as int)),
            decreases s.len() - i,
        {
            if s[i] == '\'' {
                let e = expandir(&s, i);
                let p = pareamento_caracteres(&e);
                let ghost antes = conteudo_conjunto(conj);
                conjunto_inserir(&mut conj, de_caracteres(&p));
                assert(conteudo_conjunto(conj) =~= base.union(expansoes_ate(s@, i + 1))) by {
                    assert(expansoes_ate(s@, i + 1) =~= expansoes_ate(s@, i as int).insert(p@));
                }
            } else {
                assert(expansoes_ate(s@, i + 1) =~= expansoes_ate(s@, i as int)) by {
                    assert forall|x: Seq<char>| #[trigger] expansoes_ate(s@, i + 1).contains(x) implies expansoes_ate(s@, i as int).contains(x) by {
                        let j = choose|j: int| 0 <= j < i + 1 && s@[j] == '\'' && x == #[trigger] spec_pareamento(expansao_em(s@, j));
                        assert(j < i);
                    }
                }
            }
            i = i + 1;
        }
    } else {
        assert(!contem_apostrofo(s@));
    }
    ordenar_conjunto(conj)
}


/// Hífens e espaços são equivalentes no pareamento (`PASSA-VINTE` e
/// `PASSA VINTE` têm a mesma chave).
pub proof fn lei_pareamento_hifen_espaco(s: Seq<char>)
    ensures
        spec_pareamento(trocar_hifens(s)) == spec_pareamento(s),
{
    assert(trocar_hifens(trocar_hifens(s)) =~= trocar_hifens(s));
}

/// Uma preposição entre as palavras não muda a junção.
pub proof fn lei_juntar_ignora_preposicao(ws1: Seq<Seq<char>>, p: Seq<char>, ws2: Seq<Seq<char>>)
    requires
        eh_preposicao(p),
    ensures
        juntar_sem_preposicoes(ws1.push(p) + ws2) == juntar_sem_preposicoes(ws1 + ws2),
    decreases ws2.len(),
{
    if ws2.len() == 0 {
        assert(ws1.push(p) + ws2 =~= ws1.push(p));
        assert(ws1 + ws2 =~= ws1);
        assert(ws1.push(p).drop_last() =~= ws1);
    } else {
        lei_juntar_ignora_preposicao(ws1, p, ws2.drop_last());
        assert((ws1.push(p) + ws2).drop_last() =~= ws1.push(p) + ws2.drop_last());
        assert((ws1 + ws2).drop_last() =~= ws1 + ws2.drop_last());
    }
}

/// Um caractere repetido que não é `S` nem `R` cai na deduplicação.
proof fn lemma_sem_repetidas_dobro(a: Seq<char>, x: char, b: Seq<char>)
    requires
        x != 'S',
        x != 'R',
    ensures
        sem_repetidas(a + seq![x, x] + b) == sem_repetidas(a + seq![x] + b),
    decreases b.len(),
{
    let s1 = a + seq![x, x] + b;
    let s2 = a + seq![x] + b;
    if b.len() == 0 {
        assert(s1.drop_last() =~= s2);
        assert(s1[s1.len() - 2] == x);
        assert(s2 =~= a + seq![x]);
    } else {
        lemma_sem_repetidas_dobro(a, x, b.drop_last());
        assert(s1.drop_last() =~= a + seq![x, x] + b.drop_last());
        assert(s2.drop_last() =~= a + seq![x] + b.drop_last());
        assert(s1.last() == s2.last());
        assert(s1[s1.len() - 2] == s2[s2.len() - 2]);
    }
}

/// Uma letra dobrada, exceto `S` e `R`, não muda a chave de pareamento.
pub proof fn lei_pareamento_letra_dobrada(a: Seq<char>, c: char, b: Seq<char>)
    requires
        c != 'S',
        c != 'R',
    ensures
        spec_pareamento(a + seq![c, c] + b) == spec_pareamento(a + seq![c] + b),
{
    let x = if c == '-' {
        ' '
    } else {
        c
    };
    assert(trocar_hifens(a + seq![c, c] + b) =~= trocar_hifens(a) + seq![x, x] + trocar_hifens(b));
    assert(trocar_hifens(a + seq![c] + b) =~= trocar_hifens(a) + seq![x] + trocar_hifens(b));
    lemma_sem_repetidas_dobro(trocar_hifens(a), x, trocar_hifens(b));
}

/// Palavras de um texto que termina fora de espaço: a última termina no último
/// caractere.
pub proof fn lemma_palavras_ultima(x: Seq<char>)
    requires
        x.len() > 0,
        !eh_espaco_branco(x.last()),
    ensures
        palavras(x).len() > 0,
        palavras(x).last().len() > 0,
        palavras(x).last().last() == x.last(),
    decreases x.len(),
{
    let y = x.drop_last();
    if x.len() >= 2 && !eh_espaco_branco(x[x.len() - 2]) {
        assert(y.last() == x[x.len() - 2]);
        lemma_palavras_ultima(y);
    }
}

/// Um espaço em branco separa as palavras: as de `u + [w] + v` são as de `u`
/// seguidas das de `v`.
pub proof fn lemma_palavras_concat(u: Seq<char>, w: char, v: Seq<char>)
    requires
        eh_espaco_branco(w),
    ensures
        palavras(u + seq![w] + v) == palavras(u) + palavras(v),
    decreases v.len(),
{
    let x = u + seq![w] + v;
    if v.len() == 0 {
        assert(x.drop_last() =~= u);
        assert(palavras(u) + palavras(v) =~= palavras(u));
    } else {
        let v1 = v.drop_last();
        lemma_palavras_concat(u, w, v1);
        assert(x.drop_last() =~= u + seq![w] + v1);
        let c = v.last();
        assert(x.last() == c);
        if !eh_espaco_branco(c) {
            if x.len() >= 2 && !eh_espaco_branco(x[x.len() - 2]) && v.len() >= 2 {
                assert(x[x.len() - 2] == v1.last());
                assert(v[v.len() - 2] == v1.last());
                lemma_palavras_ultima(v1);
                assert(palavras(x) =~= palavras(u) + palavras(v));
            } else {
                if v.len() >= 2 {
                    assert(x[x.len() - 2] == v[v.len() - 2]);
                } else {
                    assert(x[x.len() - 2] == w);
                    assert(v1 =~= Seq::<char>::empty());
                }
                assert(palavras(x) =~= palavras(u) + palavras(v));
            }
        } else {
            assert(palavras(x) =~= palavras(u) + palavras(v));
        }
    }
}

/// Uma palavra sem espaços é a única palavra de si mesma.
pub proof fn lemma_palavra_unica(w: Seq<char>)
    requires
        w.len() > 0,
        forall|i: int| 0 <= i < w.len() ==> !eh_espaco_branco(#[trigger] w[i]),
    ensures
        palavras(w) == seq![w],
    decreases w.len(),
{
    let y = w.drop_last();
    if w.len() > 1 {
        assert forall|i: int| 0 <= i < y.len() implies !eh_espaco_branco(#[trigger] y[i]) by {
            assert(y[i] == w[i]);
        }
        lemma_palavra_unica(y);
        assert(w[w.len() - 2] == y.last());
        assert(!eh_espaco_branco(w[w.len() - 2]));
        assert(!eh_espaco_branco(w.last()));
        assert(y.push(w.last()) =~= w);
        assert(palavras(w) =~= seq![y].update(0, y.push(w.last())));
        assert(palavras(w) =~= seq![w]);
    } else {
        assert(y =~= Seq::<char>::empty());
        assert(!eh_espaco_branco(w.last()));
        assert(seq![w.last()] =~= w);
        assert(palavras(y) =~= Seq::<Seq<char>>::empty());
    }
}

/// A deduplicação preserva o último caractere.
proof fn lemma_sem_repetidas_ultimo(y: Seq<char>)
    requires
        y.len() > 0,
    ensures
        sem_repetidas(y).len() > 0,
        sem_repetidas(y).last() == y.last(),
    decreases y.len(),
{
    if !fica_na_deduplicacao(y, y.len() - 1) {
        let z = y.drop_last();
        lemma_sem_repetidas_ultimo(z);
        assert(z.last() == y[y.len() - 2]);
    }
}

/// A deduplicação age dentro de cada palavra: as palavras do texto deduplicado
/// são as palavras do texto, cada uma deduplicada.
proof fn lemma_palavras_sem_repetidas(x: Seq<char>)
    ensures
        palavras(sem_repetidas(x)) == palavras(x).map_values(|w: Seq<char>| sem_repetidas(w)),
    decreases x.len(),
{
    let f = |w: Seq<char>| sem_repetidas(w);
    if x.len() == 0 {
        assert(palavras(x).map_values(f) =~= Seq::<Seq<char>>::empty());
    } else {
        let y = x.drop_last();
        let c = x.last();
        let n = x.len();
        lemma_palavras_sem_repetidas(y);
        let wp = palavras(y);
        let sy = sem_repetidas(y);
        let fica = fica_na_deduplicacao(x, n - 1);
        assert(sy.push(c).drop_last() =~= sy);
        if eh_espaco_branco(c) {
            assert(palavras(sy.push(c)) == palavras(sy));
        } else if n < 2 || eh_espaco_branco(x[n - 2]) {
            assert(fica);
            if n >= 2 {
                lemma_sem_repetidas_ultimo(y);
                assert(sy.push(c)[sy.len() - 1] == sy.last());
            }
            assert(sem_repetidas(seq![c]) == seq![c]) by {
                assert(seq![c].drop_last() =~= Seq::<char>::empty());
                assert(sem_repetidas(Seq::<char>::empty()) == Seq::<char>::empty());
                assert(Seq::<char>::empty().push(c) =~= seq![c]);
            }
            assert(wp.push(seq![c]).map_values(f) =~= wp.map_values(f).push(seq![c]));
        } else {
            assert(y.last() == x[n - 2]);
            lemma_palavras_ultima(y);
            lemma_sem_repetidas_ultimo(y);
            let w = wp.last();
            let k = (wp.len() - 1) as int;
            assert(w.push(c).drop_last() =~= w);
            assert(w.push(c)[w.len() - 1] == w.last());
            assert(fica_na_deduplicacao(w.push(c), w.len() as int) == fica);
            assert(wp.map_values(f)[k] == sem_repetidas(w));
            if fica {
                assert(sy.push(c)[sy.len() - 1] == sy.last());
                assert(wp.update(k, w.push(c)).map_values(f) =~= wp.map_values(f).update(
                    k,
                    sem_repetidas(w).push(c),
                ));
            } else {
                assert(wp.update(k, w.push(c)).map_values(f) =~= wp.map_values(f));
            }
        }
    }
}

/// As preposições não têm espaços, hífens nem letras repetidas.
proof fn lemma_preposicao(p: Seq<char>)
    requires
        eh_preposicao(p),
    ensures
        p.len() > 0,
        forall|i: int| 0 <= i < p.len() ==> !eh_espaco_branco(#[trigger] p[i]) && p[i] != '-',
        sem_repetidas(p) == p,
{
    reveal_strlit("DE");
    reveal_strlit("DA");
    reveal_strlit("DO");
    reveal_strlit("DAS");
    reveal_strlit("DOS");
    reveal_strlit("DEL");
    reveal_strlit("E");
    reveal_with_fuel(sem_repetidas, 4);
    if p.len() == 3 {
        assert(p.drop_last().drop_last().drop_last() =~= Seq::<char>::empty());
        assert(sem_repetidas(p) =~= p);
    } else if p.len() == 2 {
        assert(p.drop_last().drop_last() =~= Seq::<char>::empty());
        assert(sem_repetidas(p) =~= p);
    } else {
        assert(p.drop_last() =~= Seq::<char>::empty());
        assert(sem_repetidas(p) =~= p);
    }
}

/// Uma preposição entre duas partes do texto não muda a chave de pareamento
/// (`LAGOA DO ITAENGA` e `LAGOA ITAENGA` têm a mesma chave).
pub proof fn lei_pareamento_ignora_preposicao(a: Seq<char>, p: Seq<char>, b: Seq<char>)
    requires
        eh_preposicao(p),
    ensures
        spec_pareamento(a + seq![' '] + p + seq![' '] + b) == spec_pareamento(a + seq![' '] + b),
{
    let f = |w: Seq<char>| sem_repetidas(w);
    lemma_preposicao(p);
    let ta = trocar_hifens(a);
    let tb = trocar_hifens(b);
    let x1 = ta + seq![' '] + (p + seq![' '] + tb);
    let x2 = ta + seq![' '] + tb;
    assert(trocar_hifens(p) =~= p);
    assert(trocar_hifens(a + seq![' '] + p + seq![' '] + b) =~= x1);
    assert(trocar_hifens(a + seq![' '] + b) =~= x2);
    lemma_palavras_sem_repetidas(x1);
    lemma_palavras_sem_repetidas(x2);
    lemma_palavras_concat(ta, ' ', p + seq![' '] + tb);
    lemma_palavras_concat(p, ' ', tb);
    lemma_palavra_unica(p);
    lemma_palavras_concat(ta, ' ', tb);
    let w1 = palavras(ta).map_values(f);
    let w2 = palavras(tb).map_values(f);
    assert(palavras(x1).map_values(f) =~= w1.push(p) + w2);
    assert(palavras(x2).map_values(f) =~= w1 + w2);
    lei_juntar_ignora_preposicao(w1, p, w2);
}

/// As palavras unidas por um espaço (o que `join(" ")` devolve).
pub open spec fn unir(ws: Seq<Seq<char>>) -> Seq<char>
    decreases ws.len(),
{
    if ws.len() == 0 {
        Seq::empty()
    } else if ws.len() == 1 {
        ws[0]
    } else {
        unir(ws.drop_last()) + seq![' '] + ws.last()
    }
}

/// Cada palavra é não vazia e não tem espaço em branco.
pub open spec fn palavras_bem_formadas(ws: Seq<Seq<char>>) -> bool {
    forall|k: int|
        0 <= k < ws.len() ==> (#[trigger] ws[k]).len() > 0 && forall|i: int|
            0 <= i < ws[k].len() ==> !eh_espaco_branco(#[trigger] ws[k][i])
}

/// As palavras de um texto são bem formadas.
pub proof fn lemma_palavras_bem_formadas(x: Seq<char>)
    ensures
        palavras_bem_formadas(palavras(x)),
    decreases x.len(),
{
    if x.len() > 0 {
        let y = x.drop_last();
        lemma_palavras_bem_formadas(y);
        let wp = palavras(y);
        let c = x.last();
        if !eh_espaco_branco(c) {
            if x.len() >= 2 && !eh_espaco_branco(x[x.len() - 2]) && wp.len() > 0 {
                let k = wp.len() - 1;
                assert forall|i: int| 0 <= i < wp[k].push(c).len() implies !eh_espaco_branco(#[trigger] wp[k].push(c)[i]) by {
                    if i < wp[k].len() {
                        assert(wp[k].push(c)[i] == wp[k][i]);
                    }
                }
            }
        }
    }
}

/// As palavras de palavras bem formadas unidas por espaços são elas mesmas.
pub proof fn lemma_palavras_unir(ws: Seq<Seq<char>>)
    requires
        palavras_bem_formadas(ws),
    ensures
        palavras(unir(ws)) == ws,
    decreases ws.len(),
{
    if ws.len() == 1 {
        lemma_palavra_unica(ws[0]);
        assert(seq![ws[0]] =~= ws);
    } else if ws.len() > 1 {
        let w1 = ws.drop_last();
        assert(palavras_bem_formadas(w1)) by {
            assert forall|k: int| 0 <= k < w1.len() implies #[trigger] w1[k] == ws[k] by {}
        }
        lemma_palavras_unir(w1);
        assert(ws[ws.len() - 1] == ws.last());
        lemma_palavra_unica(ws.last());
        lemma_palavras_concat(unir(w1), ' ', ws.last());
        assert(w1 + seq![ws.last()] =~= ws);
    } else {
        assert(ws =~= Seq::<Seq<char>>::empty());
    }
}

/// As palavras, depois de trocados os hífens por espaços, de cada palavra de `ws`,
/// em ordem.
pub open spec fn palavras_trocadas(ws: Seq<Seq<char>>) -> Seq<Seq<char>>
    decreases ws.len(),
{
    if ws.len() == 0 {
        Seq::empty()
    } else {
        palavras_trocadas(ws.drop_last()) + palavras(trocar_hifens(ws.last()))
    }
}

/// Trocar os hífens por espaços só divide as palavras do texto.
proof fn lemma_palavras_trocar_hifens(x: Seq<char>)
    ensures
        palavras(trocar_hifens(x)) == palavras_trocadas(palavras(x)),
    decreases x.len(),
{
    if x.len() == 0 {
        assert(trocar_hifens(x) =~= Seq::<char>::empty());
    } else {
        let y = x.drop_last();
        let c = x.last();
        let n = x.len();
        lemma_palavras_trocar_hifens(y);
        let wp = palavras(y);
        let cc = palavras_trocadas(wp);
        let ty = trocar_hifens(y);
        let tc = if c == '-' {
            ' '
        } else {
            c
        };
        assert(trocar_hifens(x) =~= ty.push(tc));
        assert(ty.push(tc).drop_last() =~= ty);
        if n >= 2 {
            assert(ty.last() == (if x[n - 2] == '-' { ' ' } else { x[n - 2] }));
            assert(ty.push(tc)[ty.len() - 1] == ty.last());
        } else {
            assert(ty =~= Seq::<char>::empty());
        }
        if eh_espaco_branco(c) {
        } else if n < 2 || eh_espaco_branco(x[n - 2]) {
            let t1 = trocar_hifens(seq![c]);
            assert(t1 =~= seq![tc]);
            assert(seq![tc].drop_last() =~= Seq::<char>::empty());
            assert(wp.push(seq![c]).drop_last() =~= wp);
            assert(palavras(Seq::<char>::empty()) =~= Seq::<Seq<char>>::empty());
            if c == '-' {
                assert(palavras(seq![tc]) =~= Seq::<Seq<char>>::empty());
                assert(cc + Seq::<Seq<char>>::empty() =~= cc);
            } else {
                assert(palavras(seq![tc]) =~= seq![seq![c]]);
                assert(cc + seq![seq![c]] =~= cc.push(seq![c]));
            }
        } else {
            assert(y.last() == x[n - 2]);
            lemma_palavras_ultima(y);
            let k = wp.len() - 1;
            let w = wp.last();
            let w2 = w.push(c);
            assert(wp.update(k, w2).drop_last() =~= wp.drop_last());
            assert(wp.update(k, w2).last() == w2);
            let pre = palavras_trocadas(wp.drop_last());
            assert(cc == pre + palavras(trocar_hifens(w)));
            let tw = trocar_hifens(w);
            assert(trocar_hifens(w2) =~= tw.push(tc));
            assert(tw.push(tc).drop_last() =~= tw);
            assert(tw.last() == ty.last());
            assert(tw.push(tc)[tw.len() - 1] == tw.last());
            if c == '-' {
                assert(palavras(tw.push(tc)) == palavras(tw));
            } else if x[n - 2] == '-' {
                assert(palavras(tw.push(tc)) == palavras(tw).push(seq![c]));
                assert(pre + palavras(tw).push(seq![c]) =~= cc.push(seq![c]));
            } else {
                lemma_palavras_ultima(tw);
                lemma_palavras_ultima(ty);
                let pw = palavras(tw);
                assert(palavras(tw.push(tc)) == pw.update(pw.len() - 1, pw.last().push(c)));
                assert(cc.len() > 0);
                assert(cc.last() == pw.last());
                assert(pre + pw.update(pw.len() - 1, pw.last().push(c)) =~= cc.update(
                    cc.len() - 1,
                    cc.last().push(c),
                ));
            }
        }
    }
}

/// Refazer os espaços (unir as palavras do texto por um espaço, como
/// `split_whitespace` e `join(" ")`) não muda a chave de pareamento.
pub proof fn lei_pareamento_espacos(s: Seq<char>)
    ensures
        spec_pareamento(unir(palavras(s))) == spec_pareamento(s),
{
    let f = |w: Seq<char>| sem_repetidas(w);
    let r = unir(palavras(s));
    lemma_palavras_bem_formadas(s);
    lemma_palavras_unir(palavras(s));
    lemma_palavras_trocar_hifens(s);
    lemma_palavras_trocar_hifens(r);
    lemma_palavras_sem_repetidas(trocar_hifens(s));
    lemma_palavras_sem_repetidas(trocar_hifens(r));
}

/// Espaços em branco no início não mudam as palavras.
pub proof fn lemma_palavras_brancos_inicio(w: Seq<char>, t: Seq<char>)
    requires
        so_brancos(w),
    ensures
        palavras(w + t) == palavras(t),
    decreases w.len(),
{
    if w.len() > 0 {
        let w1 = w.drop_first();
        assert forall|i: int| 0 <= i < w1.len() implies eh_espaco_branco(#[trigger] w1[i]) by {
            assert(w1[i] == w[i + 1]);
        }
        lemma_palavras_brancos_inicio(w1, t);
        let e = Seq::<char>::empty();
        assert(eh_espaco_branco(w[0]));
        lemma_palavras_concat(e, w[0], w1 + t);
        assert(e + seq![w[0]] + (w1 + t) =~= w + t);
        assert(palavras(e) =~= Seq::<Seq<char>>::empty());
        assert(palavras(e) + palavras(w1 + t) =~= palavras(w1 + t));
    } else {
        assert(w + t =~= t);
    }
}

/// Espaços em branco no fim não mudam as palavras.
proof fn lemma_palavras_brancos_fim(t: Seq<char>, w: Seq<char>)
    requires
        so_brancos(w),
    ensures
        palavras(t + w) == palavras(t),
    decreases w.len(),
{
    if w.len() > 0 {
        let w1 = w.drop_last();
        assert forall|i: int| 0 <= i < w1.len() implies eh_espaco_branco(#[trigger] w1[i]) by {
            assert(w1[i] == w[i]);
        }
        lemma_palavras_brancos_fim(t, w1);
        assert((t + w).drop_last() =~= t + w1);
        assert((t + w).last() == w[w.len() - 1]);
    } else {
        assert(t + w =~= t);
    }
}

/// Aparar não muda as palavras.
pub proof fn lemma_palavras_aparar(s: Seq<char>)
    ensures
        palavras(aparar(s)) == palavras(s),
{
    let (i, j) = lemma_aparar_limites(s);
    let a = s.take(i);
    let m = s.subrange(i, j);
    let b = s.skip(j);
    assert forall|q: int| 0 <= q < a.len() implies eh_espaco_branco(#[trigger] a[q]) by {
        assert(a[q] == s[q]);
    }
    assert forall|q: int| 0 <= q < b.len() implies eh_espaco_branco(#[trigger] b[q]) by {
        assert(b[q] == s[q + j]);
    }
    assert(s =~= a + m + b);
    lemma_palavras_brancos_fim(a + m, b);
    lemma_palavras_brancos_inicio(a, m);
}

/// Trocar cada caractere por outro que é espaço em branco exatamente quando
/// ele é troca do mesmo modo os caracteres de cada palavra.
pub proof fn lemma_palavras_trocar(s: Seq<char>, f: spec_fn(char) -> char)
    requires
        forall|c: char| eh_espaco_branco(#[trigger] f(c)) == eh_espaco_branco(c),
    ensures
        palavras(s.map_values(f)) == palavras(s).map_values(|w: Seq<char>| w.map_values(f)),
    decreases s.len(),
{
    let g = |w: Seq<char>| w.map_values(f);
    let t = s.map_values(f);
    if s.len() == 0 {
        assert(palavras(t) =~= palavras(s).map_values(g));
    } else {
        let y = s.drop_last();
        let c = s.last();
        lemma_palavras_trocar(y, f);
        assert(t.drop_last() =~= y.map_values(f));
        assert(t.last() == f(c));
        let p = palavras(y);
        let pm = p.map_values(g);
        assert(palavras(t.drop_last()) == pm);
        if eh_espaco_branco(c) {
            assert(eh_espaco_branco(t.last()));
        } else {
            assert(!eh_espaco_branco(t.last()));
            if s.len() >= 2 {
                assert(t[t.len() - 2] == f(s[s.len() - 2]));
            }
            if s.len() >= 2 && !eh_espaco_branco(s[s.len() - 2]) && p.len() > 0 {
                let k = p.len() - 1;
                assert(g(p.last().push(c)) =~= pm.last().push(f(c)));
                assert(palavras(t) =~= pm.update(k, pm.last().push(f(c))));
                assert(p.update(k, p.last().push(c)).map_values(g) =~= pm.update(
                    k,
                    pm.last().push(f(c)),
                ));
            } else {
                assert(g(seq![c]) =~= seq![f(c)]);
                assert(palavras(t) =~= pm.push(seq![f(c)]));
                assert(p.push(seq![c]).map_values(g) =~= pm.push(seq![f(c)]));
            }
        }
    }
}

/// Um texto com algum caractere que não é espaço em branco tem ao menos uma palavra.
pub proof fn lemma_palavras_nao_vazias(x: Seq<char>, i: int)
    requires
        0 <= i < x.len(),
        !eh_espaco_branco(x[i]),
    ensures
        palavras(x).len() > 0,
    decreases x.len(),
{
    if !eh_espaco_branco(x.last()) {
        lemma_palavras_ultima(x);
    } else {
        assert(i < x.len() - 1);
        assert(x.drop_last()[i] == x[i]);
        lemma_palavras_nao_vazias(x.drop_last(), i);
    }
}

/// Unir uma palavra à frente das demais é pôr um espaço entre ela e a união delas.
pub proof fn lemma_unir_frente(a: Seq<char>, ws: Seq<Seq<char>>)
    requires
        ws.len() > 0,
    ensures
        unir(seq![a] + ws) == a + seq![' '] + unir(ws),
    decreases ws.len(),
{
    let z = seq![a] + ws;
    assert(z.last() == ws.last());
    assert(z.len() >= 2);
    assert(unir(z) == unir(z.drop_last()) + seq![' '] + z.last());
    if ws.len() == 1 {
        assert(z.drop_last() =~= seq![a]);
        assert(unir(seq![a]) == a);
        assert(ws.last() == ws[0]);
        assert(unir(ws) == ws[0]);
    } else {
        lemma_unir_frente(a, ws.drop_last());
        assert(z.drop_last() =~= seq![a] + ws.drop_last());
        assert(unir(ws) == unir(ws.drop_last()) + seq![' '] + ws.last());
        assert(a + seq![' '] + unir(ws.drop_last()) + seq![' '] + ws.last() =~= a + seq![' '] + (
        unir(ws.drop_last()) + seq![' '] + ws.last()));
    }
}

/// Nas palavras bem formadas unidas por espaços, o único espaço em branco é `' '`.
pub proof fn lemma_unir_brancos(ws: Seq<Seq<char>>)
    requires
        palavras_bem_formadas(ws),
    ensures
        forall|i: int|
            0 <= i < unir(ws).len() ==> eh_espaco_branco(#[trigger] unir(ws)[i]) ==> unir(ws)[i]
                == ' ',
    decreases ws.len(),
{
    if ws.len() == 1 {
        assert(ws[0].len() > 0);
    } else if ws.len() > 1 {
        let w1 = ws.drop_last();
        assert(palavras_bem_formadas(w1)) by {
            assert forall|k: int| 0 <= k < w1.len() implies #[trigger] w1[k] == ws[k] by {}
        }
        lemma_unir_brancos(w1);
        let a = unir(w1);
        let l = ws.last();
        assert(l == ws[ws.len() - 1]);
        let u = a + seq![' '] + l;
        assert forall|i: int| 0 <= i < u.len() && eh_espaco_branco(#[trigger] u[i]) implies u[i]
            == ' ' by {
            if i < a.len() {
                assert(u[i] == a[i]);
            } else if i > a.len() {
                assert(u[i] == l[i - a.len() - 1]);
            }
        }
    }
}

/// A deduplicação age em separado dos dois lados de um ponto em que os
/// caracteres vizinhos diferem.
proof fn lemma_sem_repetidas_concat(p: Seq<char>, v: Seq<char>)
    requires
        p.len() == 0 || v.len() == 0 || v[0] != p.last(),
    ensures
        sem_repetidas(p + v) == sem_repetidas(p) + sem_repetidas(v),
    decreases v.len(),
{
    let s = p + v;
    if v.len() == 0 {
        assert(s =~= p);
        assert(sem_repetidas(p) + sem_repetidas(v) =~= sem_repetidas(p));
    } else if v.len() == 1 {
        assert(s.drop_last() =~= p);
        assert(s.last() == v[0]);
        if p.len() > 0 {
            assert(s[s.len() - 2] == p.last());
        }
        assert(v.drop_last() =~= Seq::<char>::empty());
        assert(sem_repetidas(Seq::<char>::empty()) == Seq::<char>::empty());
        assert(sem_repetidas(v) =~= seq![v[0]]);
        assert(sem_repetidas(p).push(v[0]) =~= sem_repetidas(p) + seq![v[0]]);
    } else {
        lemma_sem_repetidas_concat(p, v.drop_last());
        assert(s.drop_last() =~= p + v.drop_last());
        assert(s.last() == v.last());
        assert(s[s.len() - 2] == v[v.len() - 2]);
        assert(sem_repetidas(p) + sem_repetidas(v.drop_last()).push(v.last()) =~= (sem_repetidas(p)
            + sem_repetidas(v.drop_last())).push(v.last()));
    }
}

/// A deduplicação preserva o primeiro caractere.
proof fn lemma_sem_repetidas_primeiro(v: Seq<char>)
    requires
        v.len() > 0,
    ensures
        sem_repetidas(v).len() > 0,
        sem_repetidas(v)[0] == v[0],
    decreases v.len(),
{
    if v.len() == 1 {
        assert(v.drop_last() =~= Seq::<char>::empty());
        assert(sem_repetidas(Seq::<char>::empty()) == Seq::<char>::empty());
    } else {
        lemma_sem_repetidas_primeiro(v.drop_last());
        assert(v.drop_last()[0] == v[0]);
    }
}

/// O que as palavras depois das primeiras acrescentam à junção: cada uma que não
/// é preposição, precedida de um espaço.
pub open spec fn cauda_juntar(q: Seq<Seq<char>>) -> Seq<char>
    decreases q.len(),
{
    if q.len() == 0 {
        Seq::empty()
    } else if eh_preposicao(q.last()) {
        cauda_juntar(q.drop_last())
    } else {
        cauda_juntar(q.drop_last()) + seq![' '] + q.last()
    }
}

proof fn lemma_juntar_concat(l: Seq<Seq<char>>, q: Seq<Seq<char>>)
    requires
        juntar_sem_preposicoes(l).len() > 0,
    ensures
        juntar_sem_preposicoes(l + q) == juntar_sem_preposicoes(l) + cauda_juntar(q),
        cauda_juntar(q).len() == 0 || cauda_juntar(q)[0] == ' ',
    decreases q.len(),
{
    if q.len() == 0 {
        assert(l + q =~= l);
        assert(juntar_sem_preposicoes(l) + cauda_juntar(q) =~= juntar_sem_preposicoes(l));
    } else {
        lemma_juntar_concat(l, q.drop_last());
        assert((l + q).drop_last() =~= l + q.drop_last());
        assert((l + q).last() == q.last());
        let r = juntar_sem_preposicoes(l) + cauda_juntar(q.drop_last());
        if !eh_preposicao(q.last()) {
            assert(r + seq![' '] + q.last() =~= juntar_sem_preposicoes(l) + (cauda_juntar(
                q.drop_last(),
            ) + seq![' '] + q.last()));
            let c = cauda_juntar(q.drop_last()) + seq![' '] + q.last();
            if cauda_juntar(q.drop_last()).len() == 0 {
                assert(c[0] == ' ');
            } else {
                assert(c[0] == cauda_juntar(q.drop_last())[0]);
            }
        }
    }
}

/// Nenhuma preposição termina em `Z`.
proof fn lemma_preposicao_sem_z(w: Seq<char>)
    ensures
        !eh_preposicao(w.push('Z')),
{
    reveal_strlit("DE");
    reveal_strlit("DA");
    reveal_strlit("DO");
    reveal_strlit("DAS");
    reveal_strlit("DOS");
    reveal_strlit("DEL");
    reveal_strlit("E");
    let x = w.push('Z');
    assert(x.last() == 'Z');
    if eh_preposicao(x) {
        assert(x[x.len() - 1] != 'Z');
    }
}

/// `Z` e `S` no fim de uma palavra dão a mesma chave de pareamento (`VERA CRUZ`
/// e `VERA CRUS`, `SAO LUIZ` e `SAO LUIS`), quando o `Z` não é a repetição de
/// um `Z` anterior e a palavra com `S` não vira a preposição `DAS` ou `DOS`.
pub proof fn lei_pareamento_z_final(a: Seq<char>, b: Seq<char>)
    requires
        a.len() == 0 || a.last() != 'Z',
        b.len() == 0 || eh_espaco_branco(b[0]) || b[0] == '-',
        !eh_preposicao(palavras(sem_repetidas(trocar_hifens(a + seq!['S']))).last()),
    ensures
        spec_pareamento(a + seq!['Z'] + b) == spec_pareamento(a + seq!['S'] + b),
{
    let ta = trocar_hifens(a);
    let tb = trocar_hifens(b);
    assert(trocar_hifens(a + seq!['Z'] + b) =~= ta + seq!['Z'] + tb);
    assert(trocar_hifens(a + seq!['S'] + b) =~= ta + seq!['S'] + tb);
    assert(trocar_hifens(a + seq!['S']) =~= ta.push('S'));
    if a.len() > 0 {
        assert(ta.last() == ta[a.len() - 1]);
    }
    if tb.len() > 0 {
        assert(tb[0] == (if b[0] == '-' { ' ' } else { b[0] }));
        assert(eh_espaco_branco(tb[0]));
    }
    let ra = sem_repetidas(ta);
    let rb = sem_repetidas(tb);
    // deduplicação
    assert(ta.push('Z').drop_last() =~= ta);
    assert(ta.push('S').drop_last() =~= ta);
    if ta.len() > 0 {
        assert(ta.push('Z')[ta.len() - 1] == ta.last());
    }
    assert(fica_na_deduplicacao(ta.push('Z'), ta.len() as int));
    assert(sem_repetidas(ta.push('Z')) == ra.push('Z'));
    assert(sem_repetidas(ta.push('S')) == ra.push('S'));
    assert(ta + seq!['Z'] + tb =~= ta.push('Z') + tb);
    assert(ta + seq!['S'] + tb =~= ta.push('S') + tb);
    lemma_sem_repetidas_concat(ta.push('Z'), tb);
    lemma_sem_repetidas_concat(ta.push('S'), tb);
    // palavras
    let p = palavras(ra);
    let cond = ra.len() > 0 && !eh_espaco_branco(ra.last()) && p.len() > 0;
    let pre = if cond {
        p.drop_last()
    } else {
        p
    };
    let w = if cond {
        p.last()
    } else {
        Seq::<char>::empty()
    };
    let q = if rb.len() > 0 {
        palavras(rb.drop_first())
    } else {
        Seq::<Seq<char>>::empty()
    };
    if rb.len() > 0 {
        lemma_sem_repetidas_primeiro(tb);
    }
    assert forall|x: char| x == 'Z' || x == 'S' implies #[trigger] palavras(ra.push(x) + rb)
        == pre.push(w.push(x)) + q by {
        let s = ra.push(x);
        assert(s.drop_last() =~= ra);
        assert(s.last() == x);
        if ra.len() > 0 {
            assert(s[s.len() - 2] == ra.last());
        }
        if cond {
            assert(p.update(p.len() - 1, p.last().push(x)) =~= pre.push(w.push(x)));
        } else {
            assert(w.push(x) =~= seq![x]);
        }
        if rb.len() > 0 {
            lemma_palavras_concat(s, rb[0], rb.drop_first());
            assert(s + seq![rb[0]] + rb.drop_first() =~= s + rb);
        } else {
            assert(s + rb =~= s);
            assert(pre.push(w.push(x)) + q =~= pre.push(w.push(x)));
        }
    }
    assert(palavras(ra.push('S') + rb) == pre.push(w.push('S')) + q);
    assert(palavras(ra.push('Z') + rb) == pre.push(w.push('Z')) + q);
    // junção
    assert(palavras(ra.push('S')) == pre.push(w.push('S'))) by {
        let s = ra.push('S');
        assert(s.drop_last() =~= ra);
        if ra.len() > 0 {
            assert(s[s.len() - 2] == ra.last());
        }
        if cond {
            assert(p.update(p.len() - 1, p.last().push('S')) =~= pre.push(w.push('S')));
        } else {
            assert(w.push('S') =~= seq!['S']);
        }
    }
    lemma_preposicao_sem_z(w);
    let jp = juntar_sem_preposicoes(pre);
    let c = if jp.len() == 0 {
        Seq::<char>::empty()
    } else {
        jp + seq![' ']
    };
    assert forall|x: char| x == 'Z' || x == 'S' implies #[trigger] juntar_sem_preposicoes(
        pre.push(w.push(x)),
    ) == c + w.push(x) by {
        assert(pre.push(w.push(x)).drop_last() =~= pre);
        if jp.len() == 0 {
            assert(c + w.push(x) =~= w.push(x));
        }
    }
    lemma_juntar_concat(pre.push(w.push('Z')), q);
    lemma_juntar_concat(pre.push(w.push('S')), q);
    let d = cauda_juntar(q);
    // fonética
    crate::fonetica::lei_fonetica_z_final(c + w, d);
    assert(c + w.push('Z') + d =~= c + w + seq!['Z'] + d);
    assert(c + w.push('S') + d =~= c + w + seq!['S'] + d);
}

} // verus!
