//! Normalização de texto: caixa alta, sem acentos e sem espaços nas pontas.
use vstd::prelude::*;
use crate::texto::{
    aparar, aparar_caracteres, de_caracteres, eh_espaco_branco, lemma_aparar_brancos_nas_pontas,
    lemma_aparar_idempotente, lemma_aparar_limites, para_caracteres, so_brancos,
};

verus! {

/// O caractere em caixa alta e sem acento: letras ASCII minúsculas sobem para
/// maiúsculas e as letras acentuadas do bloco Latin-1 viram a letra base em
/// maiúscula; os demais caracteres ficam como estão.
pub open spec fn maiuscula_sem_acento(c: char) -> char {
    if 'a' <= c && c <= 'z' {
        ((c as u32) - 32) as char
    } else if ('\u{C0}' <= c && c <= '\u{C5}') || ('\u{E0}' <= c && c <= '\u{E5}') {
        'A'
    } else if c == '\u{C7}' || c == '\u{E7}' {
        'C'
    } else if ('\u{C8}' <= c && c <= '\u{CB}') || ('\u{E8}' <= c && c <= '\u{EB}') {
        'E'
    } else if ('\u{CC}' <= c && c <= '\u{CF}') || ('\u{EC}' <= c && c <= '\u{EF}') {
        'I'
    } else if c == '\u{D1}' || c == '\u{F1}' {
        'N'
    } else if ('\u{D2}' <= c && c <= '\u{D6}') || c == '\u{D8}' || ('\u{F2}' <= c && c
        <= '\u{F6}') || c == '\u{F8}' {
        'O'
    } else if ('\u{D9}' <= c && c <= '\u{DC}') || ('\u{F9}' <= c && c <= '\u{FC}') {
        'U'
    } else if c == '\u{DD}' || c == '\u{FD}' || c == '\u{FF}' {
        'Y'
    } else {
        c
    }
}

/// O texto normalizado: cada caractere em caixa alta e sem acento, sem os
/// espaços em branco das pontas.
pub open spec fn spec_normalizar(s: Seq<char>) -> Seq<char> {
    aparar(s.map_values(|c: char| maiuscula_sem_acento(c)))
}

/// Versão executável de [`maiuscula_sem_acento`].
pub fn converter_caractere(c: char) -> (r: char)
    ensures
        r == maiuscula_sem_acento(c),
{
    if 'a' <= c && c <= 'z' {
        let b = (c as u8) - 32;
        assert(b as u32 == (c as u32) - 32);
        b as char
    } else if ('\u{C0}' <= c && c <= '\u{C5}') || ('\u{E0}' <= c && c <= '\u{E5}') {
        'A'
    } else if c == '\u{C7}' || c == '\u{E7}' {
        'C'
    } else if ('\u{C8}' <= c && c <= '\u{CB}') || ('\u{E8}' <= c && c <= '\u{EB}') {
        'E'
    } else if ('\u{CC}' <= c && c <= '\u{CF}') || ('\u{EC}' <= c && c <= '\u{EF}') {
        'I'
    } else if c == '\u{D1}' || c == '\u{F1}' {
        'N'
    } else if ('\u{D2}' <= c && c <= '\u{D6}') || c == '\u{D8}' || ('\u{F2}' <= c && c
        <= '\u{F6}') || c == '\u{F8}' {
        'O'
    } else if ('\u{D9}' <= c && c <= '\u{DC}') || ('\u{F9}' <= c && c <= '\u{FC}') {
        'U'
    } else if c == '\u{DD}' || c == '\u{FD}' || c == '\u{FF}' {
        'Y'
    } else {
        c
    }
}

/// Normaliza os caracteres de um texto.
pub fn normalizar_caracteres(s: &Vec<char>) -> (r: Vec<char>)
    ensures
        r@ == spec_normalizar(s@),
{
    let mut m: Vec<char> = Vec::new();
    let mut i: usize = 0;
    while i < s.len()
        invariant
            i <= s.len(),
            m@ == s@.take(i as int).map_values(|c: char| maiuscula_sem_acento(c)),
        decreases s.len() - i,
    {
        m.push(converter_caractere(s[i]));
        assert(s@.take(i + 1).map_values(|c: char| maiuscula_sem_acento(c)) =~= s@.take(
            i as int,
        ).map_values(|c: char| maiuscula_sem_acento(c)).push(maiuscula_sem_acento(s@[i as int])));
        i = i + 1;
    }
    assert(s@.take(s.len() as int) =~= s@);
    aparar_caracteres(&m)
}

/// Normaliza um texto: caixa alta, sem acentos e sem espaços em branco nas pontas.
pub fn normalizar(valor: &str) -> (r: String)
    ensures
        r@ == spec_normalizar(valor@),
{
    let v = para_caracteres(valor);
    let n = normalizar_caracteres(&v);
    de_caracteres(&n)
}


/// O caractere em caixa baixa, se for letra maiúscula ASCII.
pub open spec fn minuscula_ascii(c: char) -> char {
    if 'A' <= c && c <= 'Z' {
        ((c as u32) + 32) as char
    } else {
        c
    }
}

/// O texto com as letras maiúsculas ASCII em caixa baixa.
pub open spec fn minusculas_ascii(s: Seq<char>) -> Seq<char> {
    s.map_values(|c: char| minuscula_ascii(c))
}

proof fn lemma_caractere(c: char)
    ensures
        maiuscula_sem_acento(maiuscula_sem_acento(c)) == maiuscula_sem_acento(c),
        maiuscula_sem_acento(minuscula_ascii(c)) == maiuscula_sem_acento(c),
        eh_espaco_branco(c) ==> maiuscula_sem_acento(c) == c,
{
    if 'a' <= c && c <= 'z' {
        let u = ((c as u32) - 32) as char;
        assert(u as u32 == (c as u32) - 32);
        assert('A' <= u && u <= 'Z');
    }
    if 'A' <= c && c <= 'Z' {
        let l = ((c as u32) + 32) as char;
        assert(l as u32 == (c as u32) + 32);
        assert('a' <= l && l <= 'z');
        let u = ((l as u32) - 32) as char;
        assert(u as u32 == c as u32);
    }
}

/// Espaços em branco nas pontas não mudam a normalização.
pub proof fn lei_normalizar_ignora_pontas(a: Seq<char>, s: Seq<char>, b: Seq<char>)
    requires
        so_brancos(a),
        so_brancos(b),
    ensures
        spec_normalizar(a + s + b) == spec_normalizar(s),
{
    let f = |c: char| maiuscula_sem_acento(c);
    assert forall|i: int| 0 <= i < a.len() implies a.map_values(f)[i] == a[i] by {
        lemma_caractere(a[i]);
    }
    assert forall|i: int| 0 <= i < b.len() implies b.map_values(f)[i] == b[i] by {
        lemma_caractere(b[i]);
    }
    assert((a + s + b).map_values(f) =~= a + s.map_values(f) + b);
    lemma_aparar_brancos_nas_pontas(a, s.map_values(f), b);
}

/// Letras maiúsculas e minúsculas ASCII são normalizadas igualmente.
pub proof fn lei_normalizar_ignora_caixa(s: Seq<char>)
    ensures
        spec_normalizar(minusculas_ascii(s)) == spec_normalizar(s),
{
    let f = |c: char| maiuscula_sem_acento(c);
    assert forall|i: int| 0 <= i < s.len() implies minusculas_ascii(s).map_values(f)[i] == s.map_values(f)[i] by {
        lemma_caractere(s[i]);
    }
    assert(minusculas_ascii(s).map_values(f) =~= s.map_values(f));
}

/// Normalizar um texto já normalizado não o muda.
pub proof fn lei_normalizar_idempotente(s: Seq<char>)
    ensures
        spec_normalizar(spec_normalizar(s)) == spec_normalizar(s),
{
    let f = |c: char| maiuscula_sem_acento(c);
    let m = s.map_values(f);
    let (i, j) = lemma_aparar_limites(m);
    let t = aparar(m);
    assert forall|q: int| 0 <= q < t.len() implies t.map_values(f)[q] == t[q] by {
        assert(t[q] == m[q + i]);
        lemma_caractere(s[q + i]);
    }
    assert(t.map_values(f) =~= t);
    lemma_aparar_idempotente(m);
}

/// Passar a caixa alta e tirar o acento não cria nem desfaz espaços em branco,
/// e deixa o espaço como está.
pub proof fn lemma_maiuscula_brancos(c: char)
    ensures
        eh_espaco_branco(maiuscula_sem_acento(c)) == eh_espaco_branco(c),
        maiuscula_sem_acento(' ') == ' ',
{
    if 'a' <= c && c <= 'z' {
        let u = ((c as u32) - 32) as char;
        assert(u as u32 == (c as u32) - 32);
        assert('A' <= u && u <= 'Z');
    }
}

/// As letras-base das posições U+00C0 a U+00DF (e, uma caixa abaixo, U+00E0 a
/// U+00FF) do Latin-1; `.` onde não há letra acentuada (Æ, Ð, ×, Þ, ß).
pub open spec fn bases_latin1() -> Seq<char> {
    seq![
        'A', 'A', 'A', 'A', 'A', 'A', '.', 'C', 'E', 'E', 'E', 'E', 'I', 'I', 'I', 'I',
        '.', 'N', 'O', 'O', 'O', 'O', 'O', '.', 'O', 'U', 'U', 'U', 'U', 'Y', '.', '.',
    ]
}

/// Uma letra acentuada do Latin-1 (maiúscula ou minúscula), com sua letra-base.
pub open spec fn letra_acentuada(c: char) -> bool {
    ||| ('\u{C0}' <= c && c <= '\u{DF}' && bases_latin1()[(c as u32 - 0xC0) as int] != '.')
    ||| ('\u{E0}' <= c && c <= '\u{FF}' && bases_latin1()[(c as u32 - 0xE0) as int] != '.')
    ||| c == '\u{FF}'
}

/// Toda letra acentuada do Latin-1, nas duas caixas, vira sua letra-base ASCII
/// maiúscula (`ê` e `ë` viram `E`, `ç` vira `C`, `ÿ` vira `Y`); toda letra
/// minúscula ASCII vira a maiúscula; os demais caracteres ficam como estão. Nenhum
/// resultado é letra acentuada ou minúscula ASCII.
pub proof fn lei_sem_acentos(c: char)
    ensures
        '\u{C0}' <= c && c <= '\u{DF}' && bases_latin1()[(c as u32 - 0xC0) as int] != '.'
            ==> maiuscula_sem_acento(c) == bases_latin1()[(c as u32 - 0xC0) as int],
        '\u{E0}' <= c && c <= '\u{FE}' && bases_latin1()[(c as u32 - 0xE0) as int] != '.'
            ==> maiuscula_sem_acento(c) == bases_latin1()[(c as u32 - 0xE0) as int],
        c == '\u{FF}' ==> maiuscula_sem_acento(c) == 'Y',
        'a' <= c && c <= 'z' ==> maiuscula_sem_acento(c) as u32 + 32 == c as u32,
        !('a' <= c && c <= 'z') && !letra_acentuada(c) ==> maiuscula_sem_acento(c) == c,
        !letra_acentuada(maiuscula_sem_acento(c)),
        !('a' <= maiuscula_sem_acento(c) && maiuscula_sem_acento(c) <= 'z'),
{
    if 'a' <= c && c <= 'z' {
        let u = ((c as u32) - 32) as char;
        assert(u as u32 == (c as u32) - 32);
        assert('A' <= u && u <= 'Z');
    }
}

/// O texto normalizado não tem letra acentuada do Latin-1 nem minúscula ASCII.
pub proof fn lei_normalizar_sem_acentos(s: Seq<char>)
    ensures
        forall|i: int|
            0 <= i < spec_normalizar(s).len() ==> !letra_acentuada(#[trigger] spec_normalizar(s)[i])
                && !('a' <= spec_normalizar(s)[i] && spec_normalizar(s)[i] <= 'z'),
{
    let f = |c: char| maiuscula_sem_acento(c);
    let m = s.map_values(f);
    let (i, j) = lemma_aparar_limites(m);
    let n = spec_normalizar(s);
    assert forall|q: int| 0 <= q < n.len() implies !letra_acentuada(#[trigger] n[q]) && !('a' <= n[q]
        && n[q] <= 'z') by {
        assert(n[q] == m[q + i]);
        lei_sem_acentos(s[q + i]);
    }
}

} // verus!
