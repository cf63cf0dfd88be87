//! Funções básicas sobre sequências de caracteres.
use vstd::prelude::*;

verus! {

/// Anexa um caractere ao fim de uma `String` (`String::push` da biblioteca padrão).
#[verifier::external_body]
fn empurrar(s: &mut String, c: char)
    ensures
        final(s)@ == old(s)@.push(c),
{
    s.push(c);
}

/// Os caracteres de uma `&str`, em ordem.
pub fn para_caracteres(s: &str) -> (r: Vec<char>)
    ensures
        r@ == s@,
{
    let mut r: Vec<char> = Vec::new();
    for c in it: s.chars()
        invariant
            r@ == it.seq().take(it.index() as int),
    {
        r.push(c);
    }
    r
}

/// Monta uma `String` a partir de seus caracteres.
pub fn de_caracteres(v: &Vec<char>) -> (r: String)
    ensures
        r@ == v@,
{
    let mut r = String::new();
    let mut i: usize = 0;
    while i < v.len()
        invariant
            i <= v.len(),
            r@ == v@.take(i as int),
        decreases v.len() - i,
    {
        empurrar(&mut r, v[i]);
        assert(v@.take(i as int).push(v@[i as int]) =~= v@.take(i + 1));
        i = i + 1;
    }
    assert(v@.take(v.len() as int) =~= v@);
    r
}


/// Os caracteres de espaço em branco do Unicode (propriedade `White_Space`),
/// os mesmos que `str::trim`, `split_whitespace` e a classe `\s` reconhecem.
pub open spec fn eh_espaco_branco(c: char) -> bool {
    ||| ('\t' <= c && c <= '\r')
    ||| c == ' '
    ||| c == '\u{85}'
    ||| c == '\u{A0}'
    ||| c == '\u{1680}'
    ||| ('\u{2000}' <= c && c <= '\u{200A}')
    ||| c == '\u{2028}'
    ||| c == '\u{2029}'
    ||| c == '\u{202F}'
    ||| c == '\u{205F}'
    ||| c == '\u{3000}'
}

/// Decide se `c` é espaço em branco.
pub fn espaco_branco(c: char) -> (r: bool)
    ensures
        r == eh_espaco_branco(c),
{
    ('\t' <= c && c <= '\r') || c == ' ' || c == '\u{85}' || c == '\u{A0}' || c == '\u{1680}'
        || ('\u{2000}' <= c && c <= '\u{200A}') || c == '\u{2028}' || c == '\u{2029}'
        || c == '\u{202F}' || c == '\u{205F}' || c == '\u{3000}'
}

/// Quantos espaços em branco abrem `s`.
pub open spec fn brancos_iniciais(s: Seq<char>) -> nat
    decreases s.len(),
{
    if s.len() > 0 && eh_espaco_branco(s[0]) {
        1 + brancos_iniciais(s.drop_first())
    } else {
        0
    }
}

/// Quantos espaços em branco fecham `s`.
pub open spec fn brancos_finais(s: Seq<char>) -> nat
    decreases s.len(),
{
    if s.len() > 0 && eh_espaco_branco(s.last()) {
        1 + brancos_finais(s.drop_last())
    } else {
        0
    }
}

/// `s` sem os espaços em branco das pontas (o que `str::trim` devolve).
pub open spec fn aparar(s: Seq<char>) -> Seq<char> {
    let t = s.skip(brancos_iniciais(s) as int);
    t.take(t.len() - brancos_finais(t))
}

/// `k` é o número de espaços em branco que abrem `s`.
pub proof fn lemma_brancos_iniciais(s: Seq<char>, k: int)
    requires
        0 <= k <= s.len(),
        forall|j: int| 0 <= j < k ==> eh_espaco_branco(#[trigger] s[j]),
        k == s.len() || !eh_espaco_branco(s[k]),
    ensures
        brancos_iniciais(s) == k,
    decreases k,
{
    if k > 0 {
        assert(eh_espaco_branco(s[0]));
        lemma_brancos_iniciais(s.drop_first(), k - 1);
    }
}

/// `k` é o número de espaços em branco que fecham `s`.
pub proof fn lemma_brancos_finais(s: Seq<char>, k: int)
    requires
        0 <= k <= s.len(),
        forall|j: int| s.len() - k <= j < s.len() ==> eh_espaco_branco(#[trigger] s[j]),
        k == s.len() || !eh_espaco_branco(s[s.len() - k - 1]),
    ensures
        brancos_finais(s) == k,
    decreases k,
{
    if k > 0 {
        assert(eh_espaco_branco(s[s.len() - 1]));
        let t = s.drop_last();
        assert forall|j: int| t.len() - (k - 1) <= j < t.len() implies eh_espaco_branco(#[trigger] t[j]) by {
            assert(t[j] == s[j]);
        }
        if k - 1 < t.len() {
            assert(t[t.len() - (k - 1) - 1] == s[s.len() - k - 1]);
        }
        lemma_brancos_finais(t, k - 1);
    }
}

/// `s` sem espaços em branco nas pontas.
pub fn aparar_caracteres(s: &Vec<char>) -> (r: Vec<char>)
    ensures
        r@ == aparar(s@),
{
    let n = s.len();
    let mut a: usize = 0;
    while a < n && espaco_branco(s[a])
        invariant
            a <= n,
            n == s.len(),
            forall|j: int| 0 <= j < a ==> eh_espaco_branco(#[trigger] s@[j]),
        decreases n - a,
    {
        a = a + 1;
    }
    proof {
        lemma_brancos_iniciais(s@, a as int);
    }
    let mut b: usize = n;
    while b > a && espaco_branco(s[b - 1])
        invariant
            a <= b <= n,
            n == s.len(),
            forall|j: int| b <= j < n ==> eh_espaco_branco(#[trigger] s@[j]),
        decreases b,
    {
        b = b - 1;
    }
    let ghost t = s@.skip(a as int);
    proof {
        assert forall|j: int| t.len() - (n - b) <= j < t.len() implies eh_espaco_branco(#[trigger] t[j]) by {
            assert(t[j] == s@[j + a]);
        }
        if n - b < t.len() {
            assert(t[t.len() - (n - b) - 1] == s@[b - 1]);
        }
        lemma_brancos_finais(t, (n - b) as int);
    }
    let mut r: Vec<char> = Vec::new();
    let mut i: usize = a;
    while i < b
        invariant
            a <= i <= b <= n,
            n == s.len(),
            r@ == s@.subrange(a as int, i as int),
        decreases b - i,
    {
        r.push(s[i]);
        assert(s@.subrange(a as int, i as int).push(s@[i as int]) =~= s@.subrange(a as int, i + 1));
        i = i + 1;
    }
    assert(r@ =~= aparar(s@));
    r
}


/// Comprimento do maior prefixo de `s` cujos caracteres satisfazem `p`.
pub open spec fn corrida_inicial(s: Seq<char>, p: spec_fn(char) -> bool) -> nat
    decreases s.len(),
{
    if s.len() > 0 && p(s[0]) {
        1 + corrida_inicial(s.drop_first(), p)
    } else {
        0
    }
}

/// `k` é o comprimento do maior prefixo de `s` que satisfaz `p`.
pub proof fn lemma_corrida_inicial(s: Seq<char>, p: spec_fn(char) -> bool, k: int)
    requires
        0 <= k <= s.len(),
        forall|j: int| 0 <= j < k ==> p(#[trigger] s[j]),
        k == s.len() || !p(s[k]),
    ensures
        corrida_inicial(s, p) == k,
    decreases k,
{
    if k > 0 {
        assert(p(s[0]));
        let t = s.drop_first();
        assert forall|j: int| 0 <= j < k - 1 implies p(#[trigger] t[j]) by {
            assert(t[j] == s[j + 1]);
        }
        lemma_corrida_inicial(t, p, k - 1);
    }
}


/// Anexa a `r` os caracteres de `s` nas posições `a..b`.
pub fn anexar_trecho(r: &mut Vec<char>, s: &Vec<char>, a: usize, b: usize)
    requires
        a <= b <= s.len(),
    ensures
        final(r)@ == old(r)@ + s@.subrange(a as int, b as int),
{
    let mut i = a;
    while i < b
        invariant
            a <= i <= b <= s.len(),
            r@ == old(r)@ + s@.subrange(a as int, i as int),
        decreases b - i,
    {
        r.push(s[i]);
        assert(old(r)@ + s@.subrange(a as int, i + 1) =~= old(r)@ + s@.subrange(a as int, i as int)
            + seq![s@[i as int]]);
        i = i + 1;
    }
}


/// `s` começa por `p`.
pub open spec fn comeca_com(s: Seq<char>, p: Seq<char>) -> bool {
    p.len() <= s.len() && s.take(p.len() as int) == p
}

/// Decide se os caracteres de `s` a partir da posição `i` começam por `w`.
pub fn casa_literal(s: &Vec<char>, i: usize, w: &str) -> (r: bool)
    requires
        i <= s.len(),
    ensures
        r == comeca_com(s@.skip(i as int), w@),
{
    let n = w.unicode_len();
    if n > s.len() - i {
        return false;
    }
    let mut j: usize = 0;
    while j < n
        invariant
            j <= n,
            n == w@.len(),
            i + n <= s.len(),
            forall|q: int| 0 <= q < j ==> s@[i + q] == #[trigger] w@[q],
        decreases n - j,
    {
        if s[i + j] != w.get_char(j) {
            assert(s@.skip(i as int).take(n as int)[j as int] != w@[j as int]);
            return false;
        }
        j = j + 1;
    }
    assert(s@.skip(i as int).take(n as int) =~= w@);
    true
}


/// Todos os caracteres de `s` são espaços em branco.
pub open spec fn so_brancos(s: Seq<char>) -> bool {
    forall|i: int| 0 <= i < s.len() ==> eh_espaco_branco(#[trigger] s[i])
}

/// Os espaços iniciais são todos brancos, e o caractere seguinte, se houver, não é.
pub proof fn lemma_brancos_iniciais_propriedades(s: Seq<char>)
    ensures
        brancos_iniciais(s) <= s.len(),
        forall|j: int| 0 <= j < brancos_iniciais(s) ==> eh_espaco_branco(#[trigger] s[j]),
        brancos_iniciais(s) == s.len() || !eh_espaco_branco(s[brancos_iniciais(s) as int]),
    decreases s.len(),
{
    if s.len() > 0 && eh_espaco_branco(s[0]) {
        let t = s.drop_first();
        lemma_brancos_iniciais_propriedades(t);
        assert forall|j: int| 0 <= j < brancos_iniciais(s) implies eh_espaco_branco(#[trigger] s[j]) by {
            if j > 0 {
                assert(s[j] == t[j - 1]);
            }
        }
        if brancos_iniciais(s) < s.len() {
            assert(s[brancos_iniciais(s) as int] == t[brancos_iniciais(t) as int]);
        }
    }
}

/// Os espaços finais são todos brancos, e o caractere anterior, se houver, não é.
pub proof fn lemma_brancos_finais_propriedades(s: Seq<char>)
    ensures
        brancos_finais(s) <= s.len(),
        forall|j: int| s.len() - brancos_finais(s) <= j < s.len() ==> eh_espaco_branco(#[trigger] s[j]),
        brancos_finais(s) == s.len() || !eh_espaco_branco(s[s.len() - brancos_finais(s) - 1]),
    decreases s.len(),
{
    if s.len() > 0 && eh_espaco_branco(s.last()) {
        let t = s.drop_last();
        lemma_brancos_finais_propriedades(t);
        assert forall|j: int| s.len() - brancos_finais(s) <= j < s.len() implies eh_espaco_branco(#[trigger] s[j]) by {
            if j < s.len() - 1 {
                assert(s[j] == t[j]);
            }
        }
        if brancos_finais(s) < s.len() {
            assert(s[s.len() - brancos_finais(s) - 1] == t[t.len() - brancos_finais(t) - 1]);
        }
    }
}

/// Aparar é tomar o trecho `i..j`, quando fora dele só há brancos e suas pontas
/// não são brancas.
pub proof fn lemma_aparar_trecho(s: Seq<char>, i: int, j: int)
    requires
        0 <= i <= j <= s.len(),
        forall|q: int| 0 <= q < i ==> eh_espaco_branco(#[trigger] s[q]),
        forall|q: int| j <= q < s.len() ==> eh_espaco_branco(#[trigger] s[q]),
        i < j ==> !eh_espaco_branco(s[i]) && !eh_espaco_branco(s[j - 1]),
    ensures
        aparar(s) == s.subrange(i, j),
{
    if i < j {
        lemma_brancos_iniciais(s, i);
        let t = s.skip(i);
        assert forall|q: int| t.len() - (s.len() - j) <= q < t.len() implies eh_espaco_branco(#[trigger] t[q]) by {
            assert(t[q] == s[q + i]);
        }
        assert(t[t.len() - (s.len() - j) - 1] == s[j - 1]);
        lemma_brancos_finais(t, s.len() - j);
        assert(aparar(s) =~= s.subrange(i, j));
    } else {
        assert forall|q: int| 0 <= q < s.len() implies eh_espaco_branco(#[trigger] s[q]) by {
            if q >= i {
                assert(j <= q);
            }
        }
        lemma_brancos_iniciais(s, s.len() as int);
        assert(aparar(s) =~= s.subrange(i, j));
    }
}

/// O trecho que sobra ao aparar `s`, com seus limites.
pub proof fn lemma_aparar_limites(s: Seq<char>) -> (r: (int, int))
    ensures
        0 <= r.0 <= r.1 <= s.len(),
        forall|q: int| 0 <= q < r.0 ==> eh_espaco_branco(#[trigger] s[q]),
        forall|q: int| r.1 <= q < s.len() ==> eh_espaco_branco(#[trigger] s[q]),
        r.0 < r.1 ==> !eh_espaco_branco(s[r.0]) && !eh_espaco_branco(s[r.1 - 1]),
        aparar(s) == s.subrange(r.0, r.1),
{
    lemma_brancos_iniciais_propriedades(s);
    let i = brancos_iniciais(s) as int;
    let t = s.skip(i);
    lemma_brancos_finais_propriedades(t);
    let j = s.len() - brancos_finais(t);
    assert forall|q: int| j <= q < s.len() implies eh_espaco_branco(#[trigger] s[q]) by {
        assert(s[q] == t[q - i]);
    }
    if i < j {
        assert(s[j - 1] == t[t.len() - brancos_finais(t) - 1]);
    }
    assert(aparar(s) =~= s.subrange(i, j));
    (i, j)
}

/// Brancos nas pontas não mudam o resultado de aparar.
pub proof fn lemma_aparar_brancos_nas_pontas(a: Seq<char>, s: Seq<char>, b: Seq<char>)
    requires
        so_brancos(a),
        so_brancos(b),
    ensures
        aparar(a + s + b) == aparar(s),
{
    let (i, j) = lemma_aparar_limites(s);
    let x = a + s + b;
    let n = a.len() as int;
    assert forall|q: int| 0 <= q < n + i implies eh_espaco_branco(#[trigger] x[q]) by {
        if q < n {
            assert(x[q] == a[q]);
        } else {
            assert(x[q] == s[q - n]);
        }
    }
    assert forall|q: int| n + j <= q < x.len() implies eh_espaco_branco(#[trigger] x[q]) by {
        if q < n + s.len() {
            assert(x[q] == s[q - n]);
        } else {
            assert(x[q] == b[q - n - s.len()]);
        }
    }
    if i < j {
        assert(x[n + i] == s[i]);
        assert(x[n + j - 1] == s[j - 1]);
    }
    lemma_aparar_trecho(x, n + i, n + j);
    assert(x.subrange(n + i, n + j) =~= s.subrange(i, j));
}

/// Aparar um texto já aparado não o muda.
pub proof fn lemma_aparar_idempotente(s: Seq<char>)
    ensures
        aparar(aparar(s)) == aparar(s),
{
    let (i, j) = lemma_aparar_limites(s);
    let t = aparar(s);
    if i < j {
        assert(t[0] == s[i]);
        assert(t[t.len() - 1] == s[j - 1]);
    }
    lemma_aparar_trecho(t, 0, t.len() as int);
    assert(t.subrange(0, t.len() as int) =~= t);
}

/// Propriedades da corrida inicial: todos os caracteres dela satisfazem `p`,
/// e o seguinte, se houver, não.
pub proof fn lemma_corrida_propriedades(s: Seq<char>, p: spec_fn(char) -> bool)
    ensures
        corrida_inicial(s, p) <= s.len(),
        forall|j: int| 0 <= j < corrida_inicial(s, p) ==> p(#[trigger] s[j]),
        corrida_inicial(s, p) == s.len() || !p(s[corrida_inicial(s, p) as int]),
    decreases s.len(),
{
    if s.len() > 0 && p(s[0]) {
        let t = s.drop_first();
        lemma_corrida_propriedades(t, p);
        assert forall|j: int| 0 <= j < corrida_inicial(s, p) implies p(#[trigger] s[j]) by {
            if j > 0 {
                assert(s[j] == t[j - 1]);
            }
        }
        if corrida_inicial(s, p) < s.len() {
            assert(s[corrida_inicial(s, p) as int] == t[corrida_inicial(t, p) as int]);
        }
    }
}

/// Os caracteres de `w` são exatamente os de `lit`.
pub fn igual_literal(w: &Vec<char>, lit: &str) -> (r: bool)
    ensures
        r == (w@ == lit@),
{
    let n = lit.unicode_len();
    if w.len() != n {
        return false;
    }
    let r = casa_literal(w, 0, lit);
    assert(w@.skip(0).take(n as int) =~= w@);
    r
}

} // verus!
