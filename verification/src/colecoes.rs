//! As coleções de `rustc_hash` usadas na montagem da tabela de municípios e a
//! ordenação de `itertools`, atrás de contratos confiados.
use vstd::prelude::*;
use itertools::Itertools;
use rustc_hash::{FxBuildHasher, FxHashMap, FxHashSet};

verus! {

/// Um mapa de textos para textos com o hasher de `rustc_hash`.
pub type MapaTexto = FxHashMap<String, String>;

/// O construtor de hashers de `rustc_hash`, usado como parâmetro das coleções.
#[verifier::external_type_specification]
#[verifier::external_body]
pub struct ExFxBuildHasher(FxBuildHasher);

/// O conteúdo de um `FxHashMap<String, String>`, com chaves e valores vistos
/// como sequências de caracteres.
pub uninterp spec fn conteudo_mapa(m: MapaTexto) -> Map<Seq<char>, Seq<char>>;

/// O conteúdo de um `FxHashSet<String>`, com os elementos vistos como sequências
/// de caracteres.
pub uninterp spec fn conteudo_conjunto(c: FxHashSet<String>) -> Set<Seq<char>>;

/// `FxHashMap::default()`: um mapa vazio.
#[verifier::external_body]
pub(crate) fn mapa_vazio() -> (m: MapaTexto)
    ensures
        conteudo_mapa(m).dom() == Set::<Seq<char>>::empty(),
{
    FxHashMap::default()
}

/// `HashMap::insert`: associa `v` a `k`, substituindo o valor anterior, se houver.
#[verifier::external_body]
pub(crate) fn mapa_inserir(m: &mut MapaTexto, k: String, v: String)
    ensures
        conteudo_mapa(*final(m)) == conteudo_mapa(*old(m)).insert(k@, v@),
{
    m.insert(k, v);
}

/// `HashMap::contains_key`: diz se `k` tem valor no mapa.
#[verifier::external_body]
pub(crate) fn mapa_contem(m: &MapaTexto, k: &str) -> (r: bool)
    ensures
        r == conteudo_mapa(*m).dom().contains(k@),
{
    m.contains_key(k)
}

/// `HashMap::get`: o valor associado a `k`, se houver.
#[verifier::external_body]
pub(crate) fn mapa_obter<'a>(m: &'a MapaTexto, k: &str) -> (r: Option<&'a String>)
    ensures
        match r {
            Some(v) => conteudo_mapa(*m).dom().contains(k@) && v@ == conteudo_mapa(*m)[k@],
            None => !conteudo_mapa(*m).dom().contains(k@),
        },
{
    m.get(k)
}

/// `FxHashSet::default()`: um conjunto vazio.
#[verifier::external_body]
pub(crate) fn conjunto_vazio() -> (c: FxHashSet<String>)
    ensures
        conteudo_conjunto(c) == Set::<Seq<char>>::empty(),
{
    FxHashSet::default()
}

/// `HashSet::insert`: acrescenta `x` ao conjunto.
#[verifier::external_body]
pub(crate) fn conjunto_inserir(c: &mut FxHashSet<String>, x: String)
    ensures
        conteudo_conjunto(*final(c)) == conteudo_conjunto(*old(c)).insert(x@),
{
    c.insert(x);
}

/// `a` vem antes de `b` na ordem lexicográfica dos caracteres (que, em UTF-8,
/// é a mesma ordem dos bytes, usada por `Ord` de `String`).
pub open spec fn precede(a: Seq<char>, b: Seq<char>) -> bool {
    exists|k: int|
        0 <= k <= a.len() && k < b.len() && #[trigger] a.take(k) == b.take(k) && (k == a.len() || (
        a[k] as u32) < (b[k] as u32))
}

/// Os elementos de `s` estão em ordem estritamente crescente.
pub open spec fn estritamente_crescente(s: Seq<Seq<char>>) -> bool {
    forall|i: int, j: int| 0 <= i < j < s.len() ==> precede(#[trigger] s[i], #[trigger] s[j])
}

/// As sequências de caracteres vistas em um vetor de `String`s.
pub open spec fn vistas(v: Seq<String>) -> Seq<Seq<char>> {
    v.map_values(|x: String| x@)
}

/// `Itertools::sorted` sobre os elementos do conjunto: todos eles, cada um uma
/// vez, em ordem crescente.
#[verifier::external_body]
pub(crate) fn ordenar_conjunto(c: FxHashSet<String>) -> (r: Vec<String>)
    ensures
        estritamente_crescente(vistas(r@)),
        vistas(r@).to_set() == conteudo_conjunto(c),
{
    c.into_iter().sorted().collect()
}

} // verus!
