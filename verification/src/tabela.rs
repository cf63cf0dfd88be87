//! Leitura da tabela de municípios em CSV (`codigo,nome,uf`, com cabeçalho).
use vstd::prelude::*;
use crate::normalizacao::{normalizar_caracteres, spec_normalizar};
use crate::pareamento::vistas_palavras;

verus! {

/// `s` dividido em cada ocorrência de `sep` (o que `str::split` devolve): há
/// sempre ao menos um pedaço, e dois separadores seguidos dão um pedaço vazio.
pub open spec fn dividir(s: Seq<char>, sep: char) -> Seq<Seq<char>>
    decreases s.len(),
{
    if s.len() == 0 {
        seq![Seq::empty()]
    } else {
        let p = dividir(s.drop_last(), sep);
        if s.last() == sep {
            p.push(Seq::empty())
        } else {
            p.update(p.len() - 1, p.last().push(s.last()))
        }
    }
}

/// A divisão tem sempre ao menos um pedaço.
pub proof fn lemma_dividir_nao_vazio(s: Seq<char>, sep: char)
    ensures
        dividir(s, sep).len() >= 1,
    decreases s.len(),
{
    if s.len() > 0 {
        lemma_dividir_nao_vazio(s.drop_last(), sep);
    }
}

/// A linha sem o `\r` final, se houver.
pub open spec fn sem_retorno(l: Seq<char>) -> Seq<char> {
    if l.len() > 0 && l.last() == '\r' {
        l.drop_last()
    } else {
        l
    }
}

/// As linhas de `s` (o que `str::lines` devolve): os pedaços entre `\n`, cada
/// um sem o `\r` que antecede o `\n`; o último pedaço entra só se não for vazio.
pub open spec fn linhas(s: Seq<char>) -> Seq<Seq<char>> {
    let p = dividir(s, '\n');
    let iniciais = Seq::new((p.len() - 1) as nat, |i: int| sem_retorno(p[i]));
    if p.len() == 0 || p.last().len() == 0 {
        iniciais
    } else {
        iniciais.push(p.last())
    }
}

/// Toda linha depois do cabeçalho tem três campos separados por vírgula, e o
/// primeiro (o código) não é vazio.
pub open spec fn csv_bem_formado(csv: Seq<char>) -> bool {
    forall|i: int|
        1 <= i < linhas(csv).len() ==> {
            &&& dividir(#[trigger] linhas(csv)[i], ',').len() == 3
            &&& dividir(linhas(csv)[i], ',')[0].len() > 0
        }
}

/// Os registros da tabela, na ordem das linhas e sem o cabeçalho: o código e o
/// nome normalizado de cada município.
pub open spec fn registros(csv: Seq<char>) -> Seq<(Seq<char>, Seq<char>)> {
    let ls = linhas(csv);
    if ls.len() == 0 {
        Seq::empty()
    } else {
        Seq::new(
            (ls.len() - 1) as nat,
            |i: int|
                {
                    let c = dividir(ls[i + 1], ',');
                    (c[0], spec_normalizar(c[1]))
                },
        )
    }
}

/// Divide os caracteres de `s` em cada ocorrência de `sep`.
pub fn dividir_exec(s: &Vec<char>, sep: char) -> (r: Vec<Vec<char>>)
    ensures
        vistas_palavras(r@) == dividir(s@, sep),
{
    let mut feitos: Vec<Vec<char>> = Vec::new();
    let mut atual: Vec<char> = Vec::new();
    let mut i: usize = 0;
    while i < s.len()
        invariant
            i <= s.len(),
            dividir(s@.take(i as int), sep) == vistas_palavras(feitos@).push(atual@),
        decreases s.len() - i,
    {
        let ghost t = s@.take(i + 1);
        assert(t.drop_last() =~= s@.take(i as int));
        if s[i] == sep {
            proof {
                assert(vistas_palavras(feitos@.push(atual)) =~= vistas_palavras(feitos@).push(
                    atual@,
                ));
            }
            feitos.push(atual);
            atual = Vec::new();
            assert(vistas_palavras(feitos@).push(atual@) =~= vistas_palavras(feitos@).push(
                Seq::empty(),
            ));
        } else {
            let ghost antes = atual@;
            atual.push(s[i]);
            assert(vistas_palavras(feitos@).push(antes).update(
                vistas_palavras(feitos@).len() as int,
                antes.push(s@[i as int]),
            ) =~= vistas_palavras(feitos@).push(atual@));
        }
        i = i + 1;
    }
    assert(s@.take(s.len() as int) =~= s@);
    proof {
        assert(vistas_palavras(feitos@.push(atual)) =~= vistas_palavras(feitos@).push(atual@));
    }
    feitos.push(atual);
    feitos
}

/// A linha sem o `\r` final.
fn sem_retorno_exec(l: &Vec<char>) -> (r: Vec<char>)
    ensures
        r@ == sem_retorno(l@),
{
    let mut r: Vec<char> = Vec::new();
    let n = if l.len() > 0 && l[l.len() - 1] == '\r' {
        l.len() - 1
    } else {
        l.len()
    };
    crate::texto::anexar_trecho(&mut r, l, 0, n);
    assert(r@ =~= sem_retorno(l@));
    r
}

/// As linhas de um texto.
pub fn linhas_exec(s: &Vec<char>) -> (r: Vec<Vec<char>>)
    ensures
        vistas_palavras(r@) == linhas(s@),
{
    let p = dividir_exec(s, '\n');
    proof {
        lemma_dividir_nao_vazio(s@, '\n');
    }
    let ghost vp = vistas_palavras(p@);
    let mut r: Vec<Vec<char>> = Vec::new();
    let mut i: usize = 0;
    while i + 1 < p.len()
        invariant
            i + 1 <= p.len(),
            vp == vistas_palavras(p@),
            vp == dividir(s@, '\n'),
            vistas_palavras(r@) == Seq::new(i as nat, |j: int| sem_retorno(vp[j])),
        decreases p.len() - i,
    {
        let l = sem_retorno_exec(&p[i]);
        proof {
            assert(vp[i as int] == p@[i as int]@);
            assert(vistas_palavras(r@.push(l)) =~= vistas_palavras(r@).push(l@));
            assert(vistas_palavras(r@.push(l)) =~= Seq::new((i + 1) as nat, |j: int| sem_retorno(vp[j])));
        }
        r.push(l);
        i = i + 1;
    }
    let ultimo = p.len() - 1;
    if p[ultimo].len() > 0 {
        let mut l: Vec<char> = Vec::new();
        crate::texto::anexar_trecho(&mut l, &p[ultimo], 0, p[ultimo].len());
        assert(l@ =~= vp.last());
        proof {
            assert(vistas_palavras(r@.push(l)) =~= vistas_palavras(r@).push(l@));
        }
        r.push(l);
    }
    r
}

/// Os registros (código e nome normalizado) de uma tabela bem formada.
pub fn registros_exec(csv: &Vec<char>) -> (r: Vec<(Vec<char>, Vec<char>)>)
    requires
        csv_bem_formado(csv@),
    ensures
        r@.len() == registros(csv@).len(),
        forall|i: int|
            0 <= i < r@.len() ==> (#[trigger] r@[i]).0@ == registros(csv@)[i].0 && r@[i].1@
                == registros(csv@)[i].1,
{
    let ls = linhas_exec(csv);
    let ghost vl = vistas_palavras(ls@);
    let mut r: Vec<(Vec<char>, Vec<char>)> = Vec::new();
    if ls.len() == 0 {
        return r;
    }
    let mut i: usize = 1;
    while i < ls.len()
        invariant
            1 <= i <= ls.len(),
            vl == vistas_palavras(ls@),
            vl == linhas(csv@),
            csv_bem_formado(csv@),
            r@.len() == i - 1,
            forall|j: int|
                0 <= j < r@.len() ==> (#[trigger] r@[j]).0@ == registros(csv@)[j].0 && r@[j].1@
                    == registros(csv@)[j].1,
        decreases ls.len() - i,
    {
        let campos = dividir_exec(&ls[i], ',');
        assert(vl[i as int] == ls@[i as int]@);
        assert(dividir(vl[i as int], ',').len() == 3);
        let mut codigo: Vec<char> = Vec::new();
        crate::texto::anexar_trecho(&mut codigo, &campos[0], 0, campos[0].len());
        assert(codigo@ =~= campos@[0]@);
        let nome = normalizar_caracteres(&campos[1]);
        r.push((codigo, nome));
        i = i + 1;
    }
    r
}

} // verus!
