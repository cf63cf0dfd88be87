//! A tabela de nomes de municípios e a padronização de municípios.
use vstd::prelude::*;
use crate::colecoes::{
    conteudo_mapa, mapa_contem, mapa_inserir, mapa_obter, mapa_vazio, vistas, MapaTexto,
};
use crate::normalizacao::spec_normalizar;
use crate::padronizador::{brancos_simples, criar_padronizador, lei_padronizar_espacos, spec_padronizar};
use crate::pareamento::{
    alternativas, nomes_alternativos, palavras, pareamento_caracteres, spec_pareamento, unir,
};
use crate::tabela::{csv_bem_formado, registros, registros_exec};
use crate::texto::{de_caracteres, para_caracteres};

verus! {

/// Nomes antigos ou alternativos de municípios e o nome atual de cada um.
pub open spec fn spec_aliases() -> Seq<(Seq<char>, Seq<char>)> {
    seq![
        ("TRAJANO DE MORAIS"@, "TRAJANO DE MORAES"@),
        ("POXOREO"@, "POXOREU"@),
        ("SERIDO"@, "SAO VICENTE DO SERIDO"@),
        ("AUGUSTO SEVERO"@, "CAMPO GRANDE"@),
        ("FLORINIA"@, "FLORINEA"@),
        ("FORTALEZA DO TABOCAO"@, "TABOCAO"@),
        ("SAO VALERIO DA NATIVIDADE"@, "SAO VALERIO"@),
        ("CAMPO DE SANTANA"@, "TACIMA"@),
        ("JANUARIO CICCO"@, "BOA SAUDE"@),
        ("SAO DOMINGOS DE POMBAL"@, "SAO DOMINGOS"@),
    ]
}

/// Os pares de [`spec_aliases`], como textos.
fn aliases() -> (r: Vec<(&'static str, &'static str)>)
    ensures
        r@.len() == spec_aliases().len(),
        forall|i: int|
            0 <= i < r@.len() ==> (#[trigger] r@[i]).0@ == spec_aliases()[i].0 && r@[i].1@
                == spec_aliases()[i].1,
{
    vec![
        ("TRAJANO DE MORAIS", "TRAJANO DE MORAES"),
        ("POXOREO", "POXOREU"),
        ("SERIDO", "SAO VICENTE DO SERIDO"),
        ("AUGUSTO SEVERO", "CAMPO GRANDE"),
        ("FLORINIA", "FLORINEA"),
        ("FORTALEZA DO TABOCAO", "TABOCAO"),
        ("SAO VALERIO DA NATIVIDADE", "SAO VALERIO"),
        ("CAMPO DE SANTANA", "TACIMA"),
        ("JANUARIO CICCO", "BOA SAUDE"),
        ("SAO DOMINGOS DE POMBAL", "SAO DOMINGOS"),
    ]
}

/// O código sem o último caractere, quando este é ASCII (o código de município
/// do IBGE sem o dígito verificador).
pub open spec fn codigo_reduzido(c: Seq<char>) -> Option<Seq<char>> {
    if c.len() > 0 && (c.last() as u32) < 0x80 {
        Some(c.drop_last())
    } else {
        None
    }
}

/// Registra um município pelo nome, pelo código e pelo código reduzido,
/// substituindo o que já houver.
pub open spec fn inserir_canonico(
    m: Map<Seq<char>, Seq<char>>,
    r: (Seq<char>, Seq<char>),
) -> Map<Seq<char>, Seq<char>> {
    let m1 = m.insert(r.1, r.1).insert(r.0, r.1);
    match codigo_reduzido(r.0) {
        Some(cr) => m1.insert(cr, r.1),
        None => m1,
    }
}

/// Primeira etapa: os registros, em ordem, pelos nomes e códigos.
pub open spec fn etapa_canonica(
    m: Map<Seq<char>, Seq<char>>,
    regs: Seq<(Seq<char>, Seq<char>)>,
) -> Map<Seq<char>, Seq<char>>
    decreases regs.len(),
{
    if regs.len() == 0 {
        m
    } else {
        inserir_canonico(etapa_canonica(m, regs.drop_last()), regs.last())
    }
}

/// Associa `v` a cada chave de `chaves` que ainda não está no mapa.
pub open spec fn acrescentar(
    m: Map<Seq<char>, Seq<char>>,
    chaves: Set<Seq<char>>,
    v: Seq<char>,
) -> Map<Seq<char>, Seq<char>> {
    Map::new(|k: Seq<char>| chaves.contains(k), |k: Seq<char>| v).union_prefer_right(m)
}

/// As chaves de pareamento dos textos de `s`.
pub open spec fn pareamentos(s: Set<Seq<char>>) -> Set<Seq<char>> {
    Set::new(|k: Seq<char>| exists|a: Seq<char>| s.contains(a) && k == #[trigger] spec_pareamento(a))
}

/// As chaves derivadas de um nome: sua chave de pareamento e as chaves de
/// pareamento de suas grafias alternativas.
pub open spec fn chaves_derivadas(n: Seq<char>) -> Set<Seq<char>> {
    set![spec_pareamento(n)].union(pareamentos(alternativas(n)))
}

/// Segunda etapa: para cada registro, em ordem, as chaves derivadas do nome,
/// sem substituir o que já houver.
pub open spec fn etapa_derivada(
    m: Map<Seq<char>, Seq<char>>,
    regs: Seq<(Seq<char>, Seq<char>)>,
) -> Map<Seq<char>, Seq<char>>
    decreases regs.len(),
{
    if regs.len() == 0 {
        m
    } else {
        let r = regs.last();
        acrescentar(etapa_derivada(m, regs.drop_last()), chaves_derivadas(r.1), r.1)
    }
}

/// Terceira etapa: para cada par de [`spec_aliases`], em ordem, o nome antigo e
/// suas chaves derivadas apontam para o nome atual, sem substituir o que já houver.
pub open spec fn etapa_aliases(
    m: Map<Seq<char>, Seq<char>>,
    als: Seq<(Seq<char>, Seq<char>)>,
) -> Map<Seq<char>, Seq<char>>
    decreases als.len(),
{
    if als.len() == 0 {
        m
    } else {
        let a = als.last();
        acrescentar(etapa_aliases(m, als.drop_last()), set![a.0].union(chaves_derivadas(a.0)), a.1)
    }
}

/// A tabela de municípios montada a partir do CSV.
pub open spec fn spec_mapa_municipios(csv: Seq<char>) -> Map<Seq<char>, Seq<char>> {
    let regs = registros(csv);
    etapa_aliases(etapa_derivada(etapa_canonica(Map::empty(), regs), regs), spec_aliases())
}

/// Acrescentar em duas vezes, com o mesmo valor, é acrescentar a união das chaves.
pub proof fn lemma_acrescentar_uniao(
    m: Map<Seq<char>, Seq<char>>,
    a: Set<Seq<char>>,
    b: Set<Seq<char>>,
    v: Seq<char>,
)
    ensures
        acrescentar(acrescentar(m, a, v), b, v) == acrescentar(m, a.union(b), v),
{
    assert(acrescentar(acrescentar(m, a, v), b, v) =~= acrescentar(m, a.union(b), v));
}

/// Associa `v` a `k`, se `k` ainda não está no mapa.
fn inserir_se_ausente(m: &mut MapaTexto, k: &Vec<char>, v: &Vec<char>)
    ensures
        conteudo_mapa(*final(m)) == acrescentar(conteudo_mapa(*old(m)), set![k@], v@),
{
    let ks = de_caracteres(k);
    if !mapa_contem(m, ks.as_str()) {
        let vs = de_caracteres(v);
        mapa_inserir(m, ks, vs);
        assert(conteudo_mapa(*m) =~= acrescentar(conteudo_mapa(*old(m)), set![k@], v@));
    } else {
        assert(conteudo_mapa(*m) =~= acrescentar(conteudo_mapa(*old(m)), set![k@], v@));
    }
}

/// As chaves de pareamento dos `j` primeiros textos de `va`.
pub open spec fn pareamentos_ate(va: Seq<Seq<char>>, j: int) -> Set<Seq<char>> {
    Set::new(|x: Seq<char>| exists|q: int| 0 <= q < j && x == #[trigger] spec_pareamento(va[q]))
}

/// Associa `v` às chaves derivadas de `n` que ainda não estão no mapa.
fn acrescentar_derivadas(m: &mut MapaTexto, n: &Vec<char>, v: &Vec<char>)
    ensures
        conteudo_mapa(*final(m)) == acrescentar(conteudo_mapa(*old(m)), chaves_derivadas(n@), v@),
{
    let ghost m0 = conteudo_mapa(*m);
    let k = pareamento_caracteres(n);
    inserir_se_ausente(m, &k, v);
    let nome = de_caracteres(n);
    let alts = nomes_alternativos(nome.as_str());
    let ghost va = vistas(alts@);
    assert(conteudo_mapa(*m) =~= acrescentar(m0, set![k@].union(pareamentos_ate(va, 0)), v@));
    let mut j: usize = 0;
    while j < alts.len()
        invariant
            j <= alts.len(),
            va == vistas(alts@),
            k@ == spec_pareamento(n@),
            conteudo_mapa(*m) == acrescentar(m0, set![k@].union(pareamentos_ate(va, j as int)), v@),
        decreases alts.len() - j,
    {
        let a = para_caracteres(alts[j].as_str());
        let ka = pareamento_caracteres(&a);
        let ghost antes = conteudo_mapa(*m);
        inserir_se_ausente(m, &ka, v);
        proof {
            assert(a@ == va[j as int]);
            lemma_acrescentar_uniao(m0, set![k@].union(pareamentos_ate(va, j as int)), set![ka@], v@);
            assert(ka@ == spec_pareamento(va[j as int]));
            assert forall|x: Seq<char>| #[trigger] pareamentos_ate(va, j + 1).contains(x) implies pareamentos_ate(va, j as int).contains(x) || x == ka@ by {
                let q = choose|q: int| 0 <= q < j + 1 && x == #[trigger] spec_pareamento(va[q]);
                if q < j {
                    assert(pareamentos_ate(va, j as int).contains(x));
                }
            }
            assert forall|x: Seq<char>| #[trigger] pareamentos_ate(va, j as int).contains(x) implies pareamentos_ate(va, j + 1).contains(x) by {
                let q = choose|q: int| 0 <= q < j && x == #[trigger] spec_pareamento(va[q]);
                assert(0 <= q < j + 1);
            }
            assert(pareamentos_ate(va, j + 1).contains(ka@));
            assert(set![k@].union(pareamentos_ate(va, j as int)).union(set![ka@]) =~= set![k@].union(pareamentos_ate(va, j + 1)));
        }
        j = j + 1;
    }
    proof {
        assert(pareamentos_ate(va, alts.len() as int) =~= pareamentos(alternativas(n@))) by {
            assert forall|x: Seq<char>| pareamentos(alternativas(n@)).contains(x) implies #[trigger] pareamentos_ate(va, alts.len() as int).contains(x) by {
                let a = choose|a: Seq<char>| alternativas(n@).contains(a) && x == #[trigger] spec_pareamento(a);
                assert(va.to_set().contains(a));
                let q = choose|q: int| 0 <= q < va.len() && va[q] == a;
                assert(x == spec_pareamento(va[q]));
            }
            assert forall|x: Seq<char>| #[trigger] pareamentos_ate(va, alts.len() as int).contains(x) implies pareamentos(alternativas(n@)).contains(x) by {
                let q = choose|q: int| 0 <= q < alts.len() && x == #[trigger] spec_pareamento(va[q]);
                assert(va.to_set().contains(va[q]));
            }
        }
    }
}


/// Registra um município pelo nome, pelo código e pelo código reduzido.
fn inserir_canonico_exec(m: &mut MapaTexto, codigo: &Vec<char>, nome: &Vec<char>)
    ensures
        conteudo_mapa(*final(m)) == inserir_canonico(conteudo_mapa(*old(m)), (codigo@, nome@)),
{
    mapa_inserir(m, de_caracteres(nome), de_caracteres(nome));
    mapa_inserir(m, de_caracteres(codigo), de_caracteres(nome));
    let n = codigo.len();
    if n > 0 && (codigo[n - 1] as u32) < 0x80 {
        let mut reduzido: Vec<char> = Vec::new();
        crate::texto::anexar_trecho(&mut reduzido, codigo, 0, n - 1);
        assert(reduzido@ =~= codigo@.drop_last());
        mapa_inserir(m, de_caracteres(&reduzido), de_caracteres(nome));
    }
}

/// Monta a tabela de municípios a partir do CSV (`codigo,nome,uf`, com uma
/// linha de cabeçalho). Cada município é registrado pelo nome normalizado,
/// pelo código e pelo código sem o último dígito; depois, sem substituir o que
/// já existe, pelas chaves de pareamento do nome e de suas grafias alternativas;
/// por fim, também sem substituir, os nomes antigos de [`spec_aliases`] e suas
/// chaves derivadas apontam para o nome atual.
pub fn criar_municipio_map(municipios_csv: &str) -> (m: MapaTexto)
    requires
        csv_bem_formado(municipios_csv@),
    ensures
        conteudo_mapa(m) == spec_mapa_municipios(municipios_csv@),
{
    let csv = para_caracteres(municipios_csv);
    let regs = registros_exec(&csv);
    let ghost rs = registros(csv@);
    let mut mapa = mapa_vazio();
    assert(conteudo_mapa(mapa) =~= Map::<Seq<char>, Seq<char>>::empty());
    let mut i: usize = 0;
    while i < regs.len()
        invariant
            i <= regs.len(),
            rs == registros(csv@),
            regs@.len() == rs.len(),
            forall|j: int|
                0 <= j < regs@.len() ==> (#[trigger] regs@[j]).0@ == rs[j].0 && regs@[j].1@
                    == rs[j].1,
            conteudo_mapa(mapa) == etapa_canonica(Map::empty(), rs.take(i as int)),
        decreases regs.len() - i,
    {
        inserir_canonico_exec(&mut mapa, &regs[i].0, &regs[i].1);
        assert(rs.take(i + 1).drop_last() =~= rs.take(i as int));
        assert(regs@[i as int].0@ == rs[i as int].0);
        i = i + 1;
    }
    assert(rs.take(regs.len() as int) =~= rs);
    let ghost m1 = conteudo_mapa(mapa);
    let mut i: usize = 0;
    while i < regs.len()
        invariant
            i <= regs.len(),
            regs@.len() == rs.len(),
            forall|j: int|
                0 <= j < regs@.len() ==> (#[trigger] regs@[j]).0@ == rs[j].0 && regs@[j].1@
                    == rs[j].1,
            conteudo_mapa(mapa) == etapa_derivada(m1, rs.take(i as int)),
        decreases regs.len() - i,
    {
        acrescentar_derivadas(&mut mapa, &regs[i].1, &regs[i].1);
        assert(rs.take(i + 1).drop_last() =~= rs.take(i as int));
        assert(regs@[i as int].1@ == rs[i as int].1);
        i = i + 1;
    }
    assert(rs.take(regs.len() as int) =~= rs);
    let ghost m2 = conteudo_mapa(mapa);
    let als = aliases();
    let ghost sa = spec_aliases();
    let mut i: usize = 0;
    while i < als.len()
        invariant
            i <= als.len(),
            sa == spec_aliases(),
            als@.len() == sa.len(),
            forall|j: int|
                0 <= j < als@.len() ==> (#[trigger] als@[j]).0@ == sa[j].0 && als@[j].1@
                    == sa[j].1,
            conteudo_mapa(mapa) == etapa_aliases(m2, sa.take(i as int)),
        decreases als.len() - i,
    {
        let (de, para) = als[i];
        let de_c = para_caracteres(de);
        let para_c = para_caracteres(para);
        let ghost antes = conteudo_mapa(mapa);
        inserir_se_ausente(&mut mapa, &de_c, &para_c);
        acrescentar_derivadas(&mut mapa, &de_c, &para_c);
        proof {
            assert(als@[i as int].0@ == sa[i as int].0);
            lemma_acrescentar_uniao(antes, set![de_c@], chaves_derivadas(de_c@), para_c@);
            assert(sa.take(i + 1).drop_last() =~= sa.take(i as int));
        }
        i = i + 1;
    }
    assert(sa.take(als.len() as int) =~= sa);
    mapa
}

/// O nome de município associado ao valor: o da tabela para o valor
/// padronizado, se houver; senão, o da tabela para a chave de pareamento do
/// valor padronizado, se houver; senão, o texto vazio.
pub open spec fn spec_padronizar_municipio(
    m: Map<Seq<char>, Seq<char>>,
    valor: Seq<char>,
) -> Seq<char> {
    let p = spec_padronizar(valor);
    if m.dom().contains(p) {
        m[p]
    } else if m.dom().contains(spec_pareamento(p)) {
        m[spec_pareamento(p)]
    } else {
        Seq::empty()
    }
}

/// Padroniza um texto que representa um município brasileiro: normaliza, tira
/// zeros à esquerda e pontuação, e busca na tabela de municípios (por nome,
/// código do IBGE, nome antigo ou grafia parecida) o nome oficial. Devolve o
/// texto vazio quando não acha.
pub fn padronizar_municipios(municipios: &MapaTexto, valor: &str) -> (r: String)
    ensures
        r@ == spec_padronizar_municipio(conteudo_mapa(*municipios), valor@),
{
    let padronizador = criar_padronizador();
    let res = padronizador.padronizar(valor);
    proof {
        crate::padronizador::lemma_regras_municipio(spec_normalizar(valor@));
    }
    match mapa_obter(municipios, res.as_str()) {
        Some(nome) => nome.clone(),
        None => {
            let r = para_caracteres(res.as_str());
            let chave = de_caracteres(&pareamento_caracteres(&r));
            match mapa_obter(municipios, chave.as_str()) {
                Some(nome) => nome.clone(),
                None => String::new(),
            }
        },
    }
}


/// As chaves que um registro recebe na primeira etapa: o nome, o código e o
/// código reduzido, se houver.
pub open spec fn chaves_registro(r: (Seq<char>, Seq<char>)) -> Set<Seq<char>> {
    match codigo_reduzido(r.0) {
        Some(cr) => set![r.1, r.0, cr],
        None => set![r.1, r.0],
    }
}

/// Os nomes que a tabela pode devolver: os nomes normalizados dos registros e
/// os nomes atuais de [`spec_aliases`].
pub open spec fn nomes_oficiais(csv: Seq<char>) -> Set<Seq<char>> {
    Set::new(
        |n: Seq<char>|
            (exists|i: int| 0 <= i < registros(csv).len() && #[trigger] registros(csv)[i].1 == n)
                || (exists|i: int| 0 <= i < spec_aliases().len() && #[trigger] spec_aliases()[i].1
                == n),
    )
}

/// Todo valor de `m` está em `v`.
pub open spec fn valores_em(m: Map<Seq<char>, Seq<char>>, v: Set<Seq<char>>) -> bool {
    forall|k: Seq<char>| #[trigger] m.dom().contains(k) ==> v.contains(m[k])
}

proof fn lemma_acrescentar_estende(m: Map<Seq<char>, Seq<char>>, ks: Set<Seq<char>>, v: Seq<char>)
    ensures
        m.submap_of(acrescentar(m, ks, v)),
{
}

proof fn lemma_etapa_derivada_estende(m: Map<Seq<char>, Seq<char>>, regs: Seq<(Seq<char>, Seq<char>)>)
    ensures
        m.submap_of(etapa_derivada(m, regs)),
    decreases regs.len(),
{
    if regs.len() > 0 {
        lemma_etapa_derivada_estende(m, regs.drop_last());
        let r = regs.last();
        lemma_acrescentar_estende(etapa_derivada(m, regs.drop_last()), chaves_derivadas(r.1), r.1);
    }
}

proof fn lemma_etapa_aliases_estende(m: Map<Seq<char>, Seq<char>>, als: Seq<(Seq<char>, Seq<char>)>)
    ensures
        m.submap_of(etapa_aliases(m, als)),
    decreases als.len(),
{
    if als.len() > 0 {
        lemma_etapa_aliases_estende(m, als.drop_last());
        let a = als.last();
        lemma_acrescentar_estende(
            etapa_aliases(m, als.drop_last()),
            set![a.0].union(chaves_derivadas(a.0)),
            a.1,
        );
    }
}

/// Os registros canônicos têm precedência: as chaves de nome, código e código
/// reduzido postas na primeira etapa mantêm seus valores na tabela final, pois
/// as chaves derivadas e os nomes antigos só entram onde ainda não há chave.
pub proof fn lei_canonicos_preservados(csv: Seq<char>)
    ensures
        etapa_canonica(Map::empty(), registros(csv)).submap_of(spec_mapa_municipios(csv)),
{
    let regs = registros(csv);
    let m1 = etapa_canonica(Map::empty(), regs);
    let m2 = etapa_derivada(m1, regs);
    lemma_etapa_derivada_estende(m1, regs);
    lemma_etapa_aliases_estende(m2, spec_aliases());
    let m3 = spec_mapa_municipios(csv);
    assert(m3 == etapa_aliases(m2, spec_aliases()));
    assert forall|k: Seq<char>| #[trigger] m1.dom().contains(k) implies #[trigger] m3.dom().contains(k) && m1[k] == m3[k] by {
        assert(m2.dom().contains(k) && m2[k] == m1[k]);
        assert(m3.dom().contains(k) && m3[k] == m2[k]);
    }
}

proof fn lemma_etapa_canonica_valores(
    m: Map<Seq<char>, Seq<char>>,
    regs: Seq<(Seq<char>, Seq<char>)>,
    v: Set<Seq<char>>,
)
    requires
        valores_em(m, v),
        forall|i: int| 0 <= i < regs.len() ==> v.contains(#[trigger] regs[i].1),
    ensures
        valores_em(etapa_canonica(m, regs), v),
    decreases regs.len(),
{
    if regs.len() > 0 {
        lemma_etapa_canonica_valores(m, regs.drop_last(), v);
        assert(v.contains(regs[regs.len() - 1].1));
    }
}

proof fn lemma_etapa_derivada_valores(
    m: Map<Seq<char>, Seq<char>>,
    regs: Seq<(Seq<char>, Seq<char>)>,
    v: Set<Seq<char>>,
)
    requires
        valores_em(m, v),
        forall|i: int| 0 <= i < regs.len() ==> v.contains(#[trigger] regs[i].1),
    ensures
        valores_em(etapa_derivada(m, regs), v),
    decreases regs.len(),
{
    if regs.len() > 0 {
        lemma_etapa_derivada_valores(m, regs.drop_last(), v);
        assert(v.contains(regs[regs.len() - 1].1));
    }
}

proof fn lemma_etapa_aliases_valores(
    m: Map<Seq<char>, Seq<char>>,
    als: Seq<(Seq<char>, Seq<char>)>,
    v: Set<Seq<char>>,
)
    requires
        valores_em(m, v),
        forall|i: int| 0 <= i < als.len() ==> v.contains(#[trigger] als[i].1),
    ensures
        valores_em(etapa_aliases(m, als), v),
    decreases als.len(),
{
    if als.len() > 0 {
        lemma_etapa_aliases_valores(m, als.drop_last(), v);
        assert(v.contains(als[als.len() - 1].1));
    }
}

/// A tabela só devolve nomes oficiais: todo valor é o nome normalizado de um
/// registro ou o nome atual de um nome antigo.
pub proof fn lei_valores_oficiais(csv: Seq<char>)
    ensures
        valores_em(spec_mapa_municipios(csv), nomes_oficiais(csv)),
{
    let regs = registros(csv);
    let v = nomes_oficiais(csv);
    assert forall|i: int| 0 <= i < regs.len() implies v.contains(#[trigger] regs[i].1) by {}
    assert forall|i: int| 0 <= i < spec_aliases().len() implies v.contains(#[trigger] spec_aliases()[i].1) by {}
    let m0 = Map::<Seq<char>, Seq<char>>::empty();
    lemma_etapa_canonica_valores(m0, regs, v);
    let m1 = etapa_canonica(m0, regs);
    lemma_etapa_derivada_valores(m1, regs, v);
    lemma_etapa_aliases_valores(etapa_derivada(m1, regs), spec_aliases(), v);
}

/// A padronização de municípios devolve o texto vazio ou um nome oficial.
pub proof fn lei_resultado_oficial(csv: Seq<char>, valor: Seq<char>)
    ensures
        ({
            let r = spec_padronizar_municipio(spec_mapa_municipios(csv), valor);
            r.len() == 0 || nomes_oficiais(csv).contains(r)
        }),
{
    lei_valores_oficiais(csv);
    let m = spec_mapa_municipios(csv);
    let p = spec_padronizar(valor);
    if m.dom().contains(p) {
        assert(nomes_oficiais(csv).contains(m[p]));
    } else if m.dom().contains(spec_pareamento(p)) {
        assert(nomes_oficiais(csv).contains(m[spec_pareamento(p)]));
    }
}

proof fn lemma_etapa_canonica_ultimo(
    m: Map<Seq<char>, Seq<char>>,
    regs: Seq<(Seq<char>, Seq<char>)>,
    i: int,
    k: Seq<char>,
)
    requires
        0 <= i < regs.len(),
        chaves_registro(regs[i]).contains(k),
        forall|j: int|
            i < j < regs.len() && #[trigger] chaves_registro(regs[j]).contains(k) ==> regs[j].1
                == regs[i].1,
    ensures
        etapa_canonica(m, regs).dom().contains(k),
        etapa_canonica(m, regs)[k] == regs[i].1,
    decreases regs.len(),
{
    let r = regs.last();
    if i < regs.len() - 1 {
        let p = regs.drop_last();
        assert forall|j: int| i < j < p.len() && #[trigger] chaves_registro(p[j]).contains(k) implies p[j].1 == p[i].1 by {
            assert(p[j] == regs[j]);
            assert(chaves_registro(regs[j]).contains(k));
        }
        lemma_etapa_canonica_ultimo(m, p, i, k);
        if chaves_registro(r).contains(k) {
            assert(chaves_registro(regs[regs.len() - 1]).contains(k));
        }
    }
}

/// Um município é achado por seu nome, código ou código reduzido: se a chave é
/// uma dessas do registro `i` e nenhum registro posterior a recebe com outro
/// nome, a tabela associa a ela o nome do registro `i`, e todo valor que se
/// padroniza para essa chave é padronizado para esse nome.
pub proof fn lei_chave_do_registro(csv: Seq<char>, i: int, k: Seq<char>)
    requires
        0 <= i < registros(csv).len(),
        chaves_registro(registros(csv)[i]).contains(k),
        forall|j: int|
            i < j < registros(csv).len() && #[trigger] chaves_registro(registros(csv)[j]).contains(
                k,
            ) ==> registros(csv)[j].1 == registros(csv)[i].1,
    ensures
        spec_mapa_municipios(csv).dom().contains(k),
        spec_mapa_municipios(csv)[k] == registros(csv)[i].1,
        forall|valor: Seq<char>|
            spec_padronizar(valor) == k ==> #[trigger] spec_padronizar_municipio(
                spec_mapa_municipios(csv),
                valor,
            ) == registros(csv)[i].1,
{
    lemma_etapa_canonica_ultimo(Map::empty(), registros(csv), i, k);
    lei_canonicos_preservados(csv);
    let m1 = etapa_canonica(Map::empty(), registros(csv));
    let m3 = spec_mapa_municipios(csv);
    assert(m1.dom().contains(k));
    assert(m3.dom().contains(k) && m3[k] == m1[k]);
}

/// O texto vazio se padroniza e se pareia como texto vazio.
proof fn lemma_vazio()
    ensures
        spec_padronizar(Seq::<char>::empty()) == Seq::<char>::empty(),
        spec_pareamento(Seq::<char>::empty()) == Seq::<char>::empty(),
{
    let e = Seq::<char>::empty();
    assert(e.map_values(|c: char| crate::normalizacao::maiuscula_sem_acento(c)) =~= e);
    assert(crate::texto::aparar(e) =~= e);
    assert(spec_normalizar(e) =~= e);
    assert(crate::padronizador::tirar_zeros(e) == e);
    assert(crate::padronizador::colapsar_espacos(e) == e);
    assert(crate::padronizador::manter_permitidos(e) == e);
    assert(crate::pareamento::trocar_hifens(e) =~= e);
    assert(crate::pareamento::sem_repetidas(e) == e);
    assert(crate::pareamento::palavras(e) =~= Seq::<Seq<char>>::empty());
    assert(crate::pareamento::juntar_sem_preposicoes(Seq::<Seq<char>>::empty()) == e);
    assert(crate::fonetica::so_foneticos(e) == e);
    assert(crate::fonetica::spec_fonetica(e) =~= e);
}

/// Sobre uma tabela em que os nomes já estão padronizados, nenhum código ou
/// código reduzido é igual a um nome, todo nome atual de [`spec_aliases`] é nome
/// de um registro e o texto vazio não é chave, padronizar o resultado da
/// padronização não o muda.
pub proof fn lei_padronizar_municipio_idempotente(csv: Seq<char>, valor: Seq<char>)
    requires
        forall|i: int|
            0 <= i < registros(csv).len() ==> spec_padronizar(#[trigger] registros(csv)[i].1)
                == registros(csv)[i].1,
        forall|i: int, j: int|
            0 <= i < registros(csv).len() && 0 <= j < registros(csv).len() ==> {
                &&& #[trigger] registros(csv)[j].0 != #[trigger] registros(csv)[i].1
                &&& codigo_reduzido(registros(csv)[j].0) != Some(registros(csv)[i].1)
            },
        forall|a: int|
            0 <= a < spec_aliases().len() ==> exists|i: int|
                0 <= i < registros(csv).len() && #[trigger] registros(csv)[i].1
                    == #[trigger] spec_aliases()[a].1,
        !spec_mapa_municipios(csv).dom().contains(Seq::<char>::empty()),
    ensures
        ({
            let m = spec_mapa_municipios(csv);
            let r = spec_padronizar_municipio(m, valor);
            spec_padronizar_municipio(m, r) == r
        }),
{
    let m = spec_mapa_municipios(csv);
    let r = spec_padronizar_municipio(m, valor);
    let regs = registros(csv);
    lei_resultado_oficial(csv, valor);
    if r.len() == 0 {
        lemma_vazio();
        assert(r =~= Seq::<char>::empty());
    } else {
        assert(nomes_oficiais(csv).contains(r));
        let i: int = if exists|i: int| 0 <= i < regs.len() && #[trigger] regs[i].1 == r {
            choose|i: int| 0 <= i < regs.len() && #[trigger] regs[i].1 == r
        } else {
            let a = choose|a: int| 0 <= a < spec_aliases().len() && #[trigger] spec_aliases()[a].1 == r;
            choose|i: int| 0 <= i < regs.len() && #[trigger] regs[i].1 == #[trigger] spec_aliases()[a].1
        };
        assert(0 <= i < regs.len() && regs[i].1 == r);
        assert(chaves_registro(regs[i]).contains(r));
        assert forall|j: int| i < j < regs.len() && #[trigger] chaves_registro(regs[j]).contains(r) implies regs[j].1 == regs[i].1 by {
            assert(regs[j].0 != regs[i].1);
            assert(codigo_reduzido(regs[j].0) != Some(regs[i].1));
        }
        lei_chave_do_registro(csv, i, r);
        assert(spec_padronizar(r) == r);
    }
}

/// Refazer os espaços de um texto cujos espaços em branco são todos `' '` (unir
/// suas palavras por um único espaço) não muda o município associado a ele.
pub proof fn lei_padronizar_municipio_espacos(m: Map<Seq<char>, Seq<char>>, valor: Seq<char>)
    requires
        brancos_simples(valor),
    ensures
        spec_padronizar_municipio(m, unir(palavras(valor))) == spec_padronizar_municipio(m, valor),
{
    lei_padronizar_espacos(valor);
}

/// `k` é chave de pareamento do nome `n`: a do próprio nome ou a de uma de suas
/// grafias alternativas.
pub open spec fn chave_de_pareamento_de(n: Seq<char>, k: Seq<char>) -> bool {
    k == spec_pareamento(n) || exists|a: Seq<char>|
        alternativas(n).contains(a) && k == #[trigger] spec_pareamento(a)
}

/// As chaves que um nome antigo recebe na terceira etapa.
spec fn chaves_do_alias(a: (Seq<char>, Seq<char>)) -> Set<Seq<char>> {
    set![a.0].union(chaves_derivadas(a.0))
}

proof fn lemma_chaves_derivadas(n: Seq<char>, k: Seq<char>)
    ensures
        chaves_derivadas(n).contains(k) == chave_de_pareamento_de(n, k),
{
    if chave_de_pareamento_de(n, k) && k != spec_pareamento(n) {
        let a = choose|a: Seq<char>| alternativas(n).contains(a) && k == #[trigger] spec_pareamento(a);
        assert(pareamentos(alternativas(n)).contains(k));
    }
}

proof fn lemma_etapa_canonica_fora(
    m: Map<Seq<char>, Seq<char>>,
    regs: Seq<(Seq<char>, Seq<char>)>,
    k: Seq<char>,
)
    requires
        !m.dom().contains(k),
        forall|i: int| 0 <= i < regs.len() ==> !chaves_registro(#[trigger] regs[i]).contains(k),
    ensures
        !etapa_canonica(m, regs).dom().contains(k),
    decreases regs.len(),
{
    if regs.len() > 0 {
        let p = regs.drop_last();
        assert forall|i: int| 0 <= i < p.len() implies !chaves_registro(#[trigger] p[i]).contains(k) by {
            assert(p[i] == regs[i]);
        }
        lemma_etapa_canonica_fora(m, p, k);
        assert(!chaves_registro(regs[regs.len() - 1]).contains(k));
    }
}

proof fn lemma_etapa_derivada_fora(
    m: Map<Seq<char>, Seq<char>>,
    regs: Seq<(Seq<char>, Seq<char>)>,
    k: Seq<char>,
)
    requires
        !m.dom().contains(k),
        forall|i: int| 0 <= i < regs.len() ==> !chaves_derivadas(#[trigger] regs[i].1).contains(k),
    ensures
        !etapa_derivada(m, regs).dom().contains(k),
    decreases regs.len(),
{
    if regs.len() > 0 {
        let p = regs.drop_last();
        assert forall|i: int| 0 <= i < p.len() implies !chaves_derivadas(#[trigger] p[i].1).contains(k) by {
            assert(p[i] == regs[i]);
        }
        lemma_etapa_derivada_fora(m, p, k);
        assert(!chaves_derivadas(regs[regs.len() - 1].1).contains(k));
    }
}

proof fn lemma_etapa_aliases_fora(
    m: Map<Seq<char>, Seq<char>>,
    als: Seq<(Seq<char>, Seq<char>)>,
    k: Seq<char>,
)
    requires
        !m.dom().contains(k),
        forall|b: int| 0 <= b < als.len() ==> !chaves_do_alias(#[trigger] als[b]).contains(k),
    ensures
        !etapa_aliases(m, als).dom().contains(k),
    decreases als.len(),
{
    if als.len() > 0 {
        let p = als.drop_last();
        assert forall|b: int| 0 <= b < p.len() implies !chaves_do_alias(#[trigger] p[b]).contains(k) by {
            assert(p[b] == als[b]);
        }
        lemma_etapa_aliases_fora(m, p, k);
        assert(!chaves_do_alias(als[als.len() - 1]).contains(k));
    }
}

proof fn lemma_etapa_aliases_chave(
    m: Map<Seq<char>, Seq<char>>,
    als: Seq<(Seq<char>, Seq<char>)>,
    a: int,
    k: Seq<char>,
)
    requires
        0 <= a < als.len(),
        chaves_do_alias(als[a]).contains(k),
    ensures
        etapa_aliases(m, als).dom().contains(k),
        !m.dom().contains(k) && (forall|b: int| 0 <= b < a ==> !chaves_do_alias(#[trigger] als[b]).contains(k))
            ==> etapa_aliases(m, als)[k] == als[a].1,
    decreases als.len(),
{
    let p = als.drop_last();
    let l = als[als.len() - 1];
    assert(als.last() == l);
    if a < als.len() - 1 {
        assert(p[a] == als[a]);
        lemma_etapa_aliases_chave(m, p, a, k);
        if !m.dom().contains(k) && (forall|b: int| 0 <= b < a ==> !chaves_do_alias(#[trigger] als[b]).contains(k)) {
            assert forall|b: int| 0 <= b < a implies !chaves_do_alias(#[trigger] p[b]).contains(k) by {
                assert(p[b] == als[b]);
            }
        }
    } else {
        if !m.dom().contains(k) && (forall|b: int| 0 <= b < a ==> !chaves_do_alias(#[trigger] als[b]).contains(k)) {
            assert forall|b: int| 0 <= b < p.len() implies !chaves_do_alias(#[trigger] p[b]).contains(k) by {
                assert(p[b] == als[b]);
            }
            lemma_etapa_aliases_fora(m, p, k);
        }
    }
}

/// Todo nome antigo é achado pelo próprio nome e por suas chaves de pareamento
/// (a dele e as de suas grafias alternativas): a tabela tem todas essas chaves,
/// e associa a cada uma o nome atual quando nenhum registro (por nome, código,
/// código reduzido ou chave de pareamento do nome) e nenhum nome antigo anterior
/// a reivindica.
pub proof fn lei_aliases_na_tabela(csv: Seq<char>, a: int, k: Seq<char>)
    requires
        0 <= a < spec_aliases().len(),
        k == spec_aliases()[a].0 || chave_de_pareamento_de(spec_aliases()[a].0, k),
    ensures
        spec_mapa_municipios(csv).dom().contains(k),
        (forall|i: int|
            0 <= i < registros(csv).len() ==> !chaves_registro(#[trigger] registros(csv)[i]).contains(
                k,
            ) && !chave_de_pareamento_de(registros(csv)[i].1, k)) && (forall|b: int|
            0 <= b < a ==> #[trigger] spec_aliases()[b].0 != k && !chave_de_pareamento_de(
                spec_aliases()[b].0,
                k,
            )) ==> spec_mapa_municipios(csv)[k] == spec_aliases()[a].1,
{
    let regs = registros(csv);
    let als = spec_aliases();
    let m1 = etapa_canonica(Map::empty(), regs);
    let m2 = etapa_derivada(m1, regs);
    lemma_chaves_derivadas(als[a].0, k);
    assert(chaves_do_alias(als[a]).contains(k));
    lemma_etapa_aliases_chave(m2, als, a, k);
    if (forall|i: int|
        0 <= i < regs.len() ==> !chaves_registro(#[trigger] regs[i]).contains(k)
            && !chave_de_pareamento_de(regs[i].1, k)) && (forall|b: int|
        0 <= b < a ==> #[trigger] als[b].0 != k && !chave_de_pareamento_de(als[b].0, k)) {
        lemma_etapa_canonica_fora(Map::empty(), regs, k);
        assert forall|i: int| 0 <= i < regs.len() implies !chaves_derivadas(#[trigger] regs[i].1).contains(k) by {
            lemma_chaves_derivadas(regs[i].1, k);
        }
        lemma_etapa_derivada_fora(m1, regs, k);
        assert forall|b: int| 0 <= b < a implies !chaves_do_alias(#[trigger] als[b]).contains(k) by {
            lemma_chaves_derivadas(als[b].0, k);
        }
    }
}

} // verus!
