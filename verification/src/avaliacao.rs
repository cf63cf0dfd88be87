//! Leitura dos arquivos da avaliação de pareamento: o conjunto canônico de
//! endereços e o arquivo de regras de substituição, ambos separados por tabulação.
use vstd::prelude::*;
use crate::pareamento::vistas_palavras;
use crate::tabela::{dividir, dividir_exec, linhas, linhas_exec};
use crate::texto::{
    anexar_trecho, aparar, aparar_caracteres, de_caracteres, igual_literal, para_caracteres,
};

verus! {

/// A chave `estado|municipio|logradouro` de uma linha do conjunto canônico:
/// nenhuma se a linha está em branco ou tem menos de três campos.
pub open spec fn chave_da_linha(l: Seq<char>) -> Option<Seq<char>> {
    let c = dividir(l, '\t');
    if aparar(l).len() == 0 || c.len() < 3 {
        None
    } else {
        Some(c[0] + seq!['|'] + c[1] + seq!['|'] + c[2])
    }
}

/// As chaves das linhas, em ordem.
pub open spec fn chaves_das_linhas(ls: Seq<Seq<char>>) -> Seq<Seq<char>>
    decreases ls.len(),
{
    if ls.len() == 0 {
        Seq::empty()
    } else {
        match chave_da_linha(ls.last()) {
            Some(k) => chaves_das_linhas(ls.drop_last()).push(k),
            None => chaves_das_linhas(ls.drop_last()),
        }
    }
}

/// As chaves do conjunto canônico: para cada linha que não está em branco e tem
/// ao menos três campos separados por tabulação, em ordem, os três primeiros
/// campos unidos por `|`.
pub fn chaves_canonicas(txt: &str) -> (r: Vec<String>)
    ensures
        crate::colecoes::vistas(r@) == chaves_das_linhas(linhas(txt@)),
{
    let s = para_caracteres(txt);
    let ls = linhas_exec(&s);
    let ghost vl = vistas_palavras(ls@);
    let mut r: Vec<String> = Vec::new();
    let mut i: usize = 0;
    while i < ls.len()
        invariant
            i <= ls.len(),
            vl == vistas_palavras(ls@),
            crate::colecoes::vistas(r@) == chaves_das_linhas(vl.take(i as int)),
        decreases ls.len() - i,
    {
        let l = &ls[i];
        assert(vl.take(i + 1).drop_last() =~= vl.take(i as int));
        assert(vl.take(i + 1).last() == l@);
        let a = aparar_caracteres(l);
        let c = dividir_exec(l, '\t');
        if a.len() > 0 && c.len() >= 3 {
            let mut k: Vec<char> = Vec::new();
            anexar_trecho(&mut k, &c[0], 0, c[0].len());
            k.push('|');
            anexar_trecho(&mut k, &c[1], 0, c[1].len());
            k.push('|');
            anexar_trecho(&mut k, &c[2], 0, c[2].len());
            proof {
                assert(c@[0]@.subrange(0, c@[0]@.len() as int) =~= c@[0]@);
                assert(c@[1]@.subrange(0, c@[1]@.len() as int) =~= c@[1]@);
                assert(c@[2]@.subrange(0, c@[2]@.len() as int) =~= c@[2]@);
                assert(vistas_palavras(c@)[0] == c@[0]@);
                assert(vistas_palavras(c@)[1] == c@[1]@);
                assert(vistas_palavras(c@)[2] == c@[2]@);
                assert(k@ =~= c@[0]@ + seq!['|'] + c@[1]@ + seq!['|'] + c@[2]@);
            }
            let ks = de_caracteres(&k);
            proof {
                assert(crate::colecoes::vistas(r@.push(ks)) =~= crate::colecoes::vistas(r@).push(ks@));
            }
            r.push(ks);
        }
        i = i + 1;
    }
    assert(vl.take(ls.len() as int) =~= vl);
    r
}

/// Uma regra do arquivo de regras: expressão, substituição e, se houver,
/// expressão de exclusão.
pub type RegraTsv = (String, String, Option<String>);

/// Os textos de uma regra.
pub open spec fn vista_regra(t: RegraTsv) -> (Seq<char>, Seq<char>, Option<Seq<char>>) {
    (
        t.0@,
        t.1@,
        match t.2 {
            Some(x) => Some(x@),
            None => None,
        },
    )
}

/// Os textos de uma lista de regras.
pub open spec fn vistas_regras(v: Seq<RegraTsv>) -> Seq<(Seq<char>, Seq<char>, Option<Seq<char>>)> {
    v.map_values(|t: RegraTsv| vista_regra(t))
}

/// A regra de uma linha do arquivo de regras: nenhuma se a linha está em branco,
/// tem menos de quatro campos ou tem `dobrada` no quarto; senão, os três
/// primeiros campos, com o terceiro vazio lido como ausente.
pub open spec fn regra_da_linha(l: Seq<char>) -> Option<(Seq<char>, Seq<char>, Option<Seq<char>>)> {
    let c = dividir(l, '\t');
    if aparar(l).len() == 0 || c.len() < 4 || c[3] == "dobrada"@ {
        None
    } else {
        Some((c[0], c[1], if c[2].len() == 0 { None } else { Some(c[2]) }))
    }
}

/// As regras das linhas, em ordem.
pub open spec fn regras_das_linhas(ls: Seq<Seq<char>>) -> Seq<(Seq<char>, Seq<char>, Option<Seq<char>>)>
    decreases ls.len(),
{
    if ls.len() == 0 {
        Seq::empty()
    } else {
        match regra_da_linha(ls.last()) {
            Some(x) => regras_das_linhas(ls.drop_last()).push(x),
            None => regras_das_linhas(ls.drop_last()),
        }
    }
}

/// As regras do arquivo de regras (`regex`, `subst`, `ignorar`, `status`, ...
/// separados por tabulação), na ordem do arquivo.
pub fn regras_tsv(txt: &str) -> (r: Vec<RegraTsv>)
    ensures
        vistas_regras(r@) == regras_das_linhas(linhas(txt@)),
{
    let s = para_caracteres(txt);
    let ls = linhas_exec(&s);
    let ghost vl = vistas_palavras(ls@);
    let mut r: Vec<RegraTsv> = Vec::new();
    let mut i: usize = 0;
    while i < ls.len()
        invariant
            i <= ls.len(),
            vl == vistas_palavras(ls@),
            vistas_regras(r@) == regras_das_linhas(vl.take(i as int)),
        decreases ls.len() - i,
    {
        let l = &ls[i];
        assert(vl.take(i + 1).drop_last() =~= vl.take(i as int));
        assert(vl.take(i + 1).last() == l@);
        let a = aparar_caracteres(l);
        let c = dividir_exec(l, '\t');
        if a.len() > 0 && c.len() >= 4 {
            proof {
                assert(vistas_palavras(c@)[0] == c@[0]@);
                assert(vistas_palavras(c@)[1] == c@[1]@);
                assert(vistas_palavras(c@)[2] == c@[2]@);
                assert(vistas_palavras(c@)[3] == c@[3]@);
            }
            if !igual_literal(&c[3], "dobrada") {
                let expr = de_caracteres(&c[0]);
                let subst = de_caracteres(&c[1]);
                let ignorar = if c[2].len() == 0 {
                    None
                } else {
                    Some(de_caracteres(&c[2]))
                };
                let t: RegraTsv = (expr, subst, ignorar);
                proof {
                    assert(vistas_regras(r@.push(t)) =~= vistas_regras(r@).push(vista_regra(t)));
                }
                r.push(t);
            }
        }
        i = i + 1;
    }
    assert(vl.take(ls.len() as int) =~= vl);
    r
}

} // verus!
