//! Chave fonética simplificada para o pareamento de nomes em português.
use vstd::prelude::*;

verus! {

/// Vogal (contando `Y`, que soa como `I`).
pub open spec fn eh_vogal(c: char) -> bool {
    c == 'A' || c == 'E' || c == 'I' || c == 'O' || c == 'U' || c == 'Y'
}

/// Caracteres que a chave fonética considera: letras maiúsculas e dígitos
/// ASCII e o espaço; os demais (apóstrofos, hífens...) são descartados.
pub open spec fn eh_fonetico(c: char) -> bool {
    ('A' <= c && c <= 'Z') || ('0' <= c && c <= '9') || c == ' '
}

/// `s` sem os caracteres que não são [`eh_fonetico`].
pub open spec fn so_foneticos(s: Seq<char>) -> Seq<char>
    decreases s.len(),
{
    if s.len() == 0 {
        s
    } else if eh_fonetico(s.last()) {
        so_foneticos(s.drop_last()).push(s.last())
    } else {
        so_foneticos(s.drop_last())
    }
}

/// O som do caractere na posição `i` de `u`, conforme seus vizinhos:
/// `Y` soa `I`; `G` antes de `E` ou `I` soa `J`; `Z` no fim de palavra soa `S`;
/// `S` entre vogais soa `Z`; os demais soam como são.
pub open spec fn som(u: Seq<char>, i: int) -> char {
    let c = u[i];
    let antes = if i > 0 { u[i - 1] } else { ' ' };
    let depois = if i + 1 < u.len() { u[i + 1] } else { ' ' };
    if c == 'Y' {
        'I'
    } else if c == 'G' && (depois == 'E' || depois == 'I') {
        'J'
    } else if c == 'Z' && depois == ' ' {
        'S'
    } else if c == 'S' && eh_vogal(antes) && eh_vogal(depois) {
        'Z'
    } else {
        c
    }
}

/// O `H` depois de `T` é mudo (`TH` soa `T`).
pub open spec fn mudo(u: Seq<char>, i: int) -> bool {
    u[i] == 'H' && i > 0 && u[i - 1] == 'T'
}

/// Os sons das `n` primeiras posições de `u`, sem as mudas.
pub open spec fn sons(u: Seq<char>, n: int) -> Seq<char>
    decreases n,
{
    if n <= 0 {
        Seq::empty()
    } else if mudo(u, n - 1) {
        sons(u, n - 1)
    } else {
        sons(u, n - 1).push(som(u, n - 1))
    }
}

/// A chave fonética de um texto em caixa alta.
pub open spec fn spec_fonetica(s: Seq<char>) -> Seq<char> {
    let u = so_foneticos(s);
    sons(u, u.len() as int)
}

fn vogal(c: char) -> (r: bool)
    ensures
        r == eh_vogal(c),
{
    c == 'A' || c == 'E' || c == 'I' || c == 'O' || c == 'U' || c == 'Y'
}

/// Calcula a chave fonética ([`spec_fonetica`]) de um texto.
pub fn fonetica(s: &Vec<char>) -> (r: Vec<char>)
    ensures
        r@ == spec_fonetica(s@),
{
    let mut u: Vec<char> = Vec::new();
    let mut i: usize = 0;
    while i < s.len()
        invariant
            i <= s.len(),
            u@ == so_foneticos(s@.take(i as int)),
        decreases s.len() - i,
    {
        let c = s[i];
        assert(s@.take(i + 1).drop_last() =~= s@.take(i as int));
        if ('A' <= c && c <= 'Z') || ('0' <= c && c <= '9') || c == ' ' {
            u.push(c);
        }
        i = i + 1;
    }
    assert(s@.take(s.len() as int) =~= s@);
    let mut r: Vec<char> = Vec::new();
    let n = u.len();
    let mut j: usize = 0;
    while j < n
        invariant
            j <= n,
            n == u.len(),
            r@ == sons(u@, j as int),
        decreases n - j,
    {
        let c = u[j];
        let antes = if j > 0 {
            u[j - 1]
        } else {
            ' '
        };
        let depois = if j + 1 < n {
            u[j + 1]
        } else {
            ' '
        };
        if !(c == 'H' && j > 0 && antes == 'T') {
            let x = if c == 'Y' {
                'I'
            } else if c == 'G' && (depois == 'E' || depois == 'I') {
                'J'
            } else if c == 'Z' && depois == ' ' {
                'S'
            } else if c == 'S' && vogal(antes) && vogal(depois) {
                'Z'
            } else {
                c
            };
            r.push(x);
        }
        j = j + 1;
    }
    r
}

/// Os caracteres considerados de uma concatenação são os de cada parte.
proof fn lemma_so_foneticos_concat(a: Seq<char>, b: Seq<char>)
    ensures
        so_foneticos(a + b) == so_foneticos(a) + so_foneticos(b),
    decreases b.len(),
{
    if b.len() == 0 {
        assert(a + b =~= a);
        assert(so_foneticos(a) + so_foneticos(b) =~= so_foneticos(a));
    } else {
        lemma_so_foneticos_concat(a, b.drop_last());
        assert((a + b).drop_last() =~= a + b.drop_last());
        assert((a + b).last() == b.last());
        if eh_fonetico(b.last()) {
            assert(so_foneticos(a) + so_foneticos(b.drop_last()).push(b.last()) =~= (so_foneticos(a)
                + so_foneticos(b.drop_last())).push(b.last()));
        }
    }
}

/// Sons iguais e mudas iguais em cada posição dão a mesma sequência de sons.
proof fn lemma_sons_iguais(u1: Seq<char>, u2: Seq<char>, n: int)
    requires
        forall|i: int| 0 <= i < n ==> #[trigger] mudo(u1, i) == mudo(u2, i) && som(u1, i) == som(u2, i),
    ensures
        sons(u1, n) == sons(u2, n),
    decreases n,
{
    if n > 0 {
        lemma_sons_iguais(u1, u2, n - 1);
        assert(mudo(u1, n - 1) == mudo(u2, n - 1));
    }
}

/// `Z` e `S` no fim de uma palavra (antes de um espaço ou no fim do texto) soam
/// igual: trocar um pelo outro não muda a chave fonética.
pub proof fn lei_fonetica_z_final(x: Seq<char>, y: Seq<char>)
    requires
        y.len() == 0 || y[0] == ' ',
    ensures
        spec_fonetica(x + seq!['Z'] + y) == spec_fonetica(x + seq!['S'] + y),
{
    let fx = so_foneticos(x);
    let fy = so_foneticos(y);
    lemma_so_foneticos_concat(x + seq!['Z'], y);
    lemma_so_foneticos_concat(x, seq!['Z']);
    lemma_so_foneticos_concat(x + seq!['S'], y);
    lemma_so_foneticos_concat(x, seq!['S']);
    assert(so_foneticos(Seq::<char>::empty()) == Seq::<char>::empty());
    assert(seq!['Z'].drop_last() =~= Seq::<char>::empty());
    assert(seq!['Z'].last() == 'Z');
    assert(seq!['S'].last() == 'S');
    assert(seq!['S'].drop_last() =~= Seq::<char>::empty());
    assert(so_foneticos(seq!['Z']) =~= seq!['Z']);
    assert(so_foneticos(seq!['S']) =~= seq!['S']);
    if y.len() > 0 {
        lemma_so_foneticos_concat(seq![y[0]], y.drop_first());
        assert(seq![y[0]] + y.drop_first() =~= y);
        assert(seq![y[0]].drop_last() =~= Seq::<char>::empty());
        assert(seq![y[0]].last() == ' ');
        assert(so_foneticos(seq![y[0]]) =~= seq![' ']);
        assert(fy[0] == ' ');
    } else {
        assert(fy =~= Seq::<char>::empty());
    }
    let u1 = fx + seq!['Z'] + fy;
    let u2 = fx + seq!['S'] + fy;
    assert(so_foneticos(x + seq!['Z'] + y) =~= u1);
    assert(so_foneticos(x + seq!['S'] + y) =~= u2);
    let k = fx.len() as int;
    assert forall|i: int| 0 <= i < u1.len() implies #[trigger] mudo(u1, i) == mudo(u2, i) && som(
        u1,
        i,
    ) == som(u2, i) by {
        if i < k {
            assert(u1[i] == u2[i]);
            if i > 0 {
                assert(u1[i - 1] == u2[i - 1]);
            }
            if i + 1 < k {
                assert(u1[i + 1] == u2[i + 1]);
            } else {
                assert(u1[i + 1] == 'Z' && u2[i + 1] == 'S');
            }
        } else if i == k {
            assert(u1[i] == 'Z' && u2[i] == 'S');
            if i > 0 {
                assert(u1[i - 1] == u2[i - 1]);
            }
            if i + 1 < u1.len() {
                assert(u1[i + 1] == fy[0]);
                assert(u2[i + 1] == fy[0]);
            }
        } else {
            assert(u1[i] == u2[i]);
            if i > k + 1 {
                assert(u1[i - 1] == u2[i - 1]);
            } else {
                assert(u1[i - 1] == 'Z' && u2[i - 1] == 'S');
                assert(u1[i] == fy[0]);
            }
            if i + 1 < u1.len() {
                assert(u1[i + 1] == u2[i + 1]);
            }
        }
    }
    lemma_sons_iguais(u1, u2, u1.len() as int);
}

} // verus!
