use enderecobr_rs::normalizacao::normalizar;
use enderecobr_rs::padronizador::{criar_padronizador, Padronizador, Regra};

#[test]
fn normaliza_caixa_acentos_e_pontas() {
    assert_eq!(normalizar("  São Paulo  "), "SAO PAULO");
    assert_eq!(normalizar("ação çÇ ñ ÿ"), "ACAO CC N Y");
    assert_eq!(normalizar("Olho d'Água"), "OLHO D'AGUA");
    assert_eq!(normalizar("\t\n"), "");
    assert_eq!(normalizar(""), "");
    // idempotente
    assert_eq!(normalizar(&normalizar(" Brazópolis ")), normalizar(" Brazópolis "));
}

#[test]
fn remove_zeros_a_esquerda() {
    let p = criar_padronizador();
    assert_eq!(p.padronizar("003304557"), "3304557");
    assert_eq!(p.padronizar("000"), "0");
    assert_eq!(p.padronizar("0"), "0");
    assert_eq!(p.padronizar("0070"), "70");
    assert_eq!(p.padronizar("RUA 007 B"), "RUA 7 B");
    // zeros dentro de uma palavra com letras ficam
    assert_eq!(p.padronizar("X007"), "X007");
    assert_eq!(p.padronizar("007X"), "007X");
    // zero à esquerda não muda o resultado
    assert_eq!(p.padronizar("07"), p.padronizar("7"));
    assert_eq!(p.padronizar("00"), p.padronizar("0"));
}

#[test]
fn colapsa_espacos_e_remove_pontuacao() {
    let p = criar_padronizador();
    assert_eq!(p.padronizar("SAO    PAULO"), "SAO PAULO");
    assert_eq!(p.padronizar("SAO \t PAULO"), "SAO PAULO");
    // um espaço em branco isolado que não é ' ' sai com a pontuação
    assert_eq!(p.padronizar("SAO\tPAULO"), "SAOPAULO");
    assert_eq!(p.padronizar("PARATI!!!!"), "PARATI");
    assert_eq!(p.padronizar("GRÃO-PARÁ"), "GRAO-PARA");
    assert_eq!(p.padronizar("SANT'ANA"), "SANT'ANA");
    assert_eq!(p.padronizar("PARATI !!"), "PARATI");
    assert_eq!(p.padronizar("!!!!"), "");
}

#[test]
fn ignora_caixa_e_pontas() {
    let p = criar_padronizador();
    assert_eq!(p.padronizar("  rio de janeiro\t"), p.padronizar("RIO DE JANEIRO"));
    assert_eq!(p.padronizar("rio de janeiro"), "RIO DE JANEIRO");
}

#[test]
fn padronizador_de_municipios_tem_tres_regras() {
    let p = criar_padronizador();
    assert_eq!(p.regras.len(), 3);
    assert!(matches!(p.regras[0], Regra::ZerosAEsquerda));
    assert!(matches!(p.regras[1], Regra::EspacosRepetidos));
    assert!(matches!(p.regras[2], Regra::ForaDePermitidos));
}

#[test]
fn padronizador_com_outras_regras() {
    let nenhuma = Padronizador { regras: vec![] };
    assert_eq!(nenhuma.padronizar(" são  paulo! "), "SAO  PAULO!");
    let espacos = Padronizador { regras: vec![Regra::EspacosRepetidos] };
    assert_eq!(espacos.padronizar("a   007!"), "A 007!");
    let zeros = Padronizador { regras: vec![Regra::ZerosAEsquerda] };
    assert_eq!(zeros.padronizar("a   007!"), "A   7!");
    // a ordem importa: sem a remoção de pontuação antes, o zero fica colado ao `X`
    let invertido = Padronizador {
        regras: vec![Regra::ForaDePermitidos, Regra::ZerosAEsquerda],
    };
    assert_eq!(invertido.padronizar("X.007"), "X007");
    assert_eq!(criar_padronizador().padronizar("X.007"), "X7");
}

#[test]
fn classes_unicode_de_palavra_e_digito() {
    let p = criar_padronizador();
    // `°` não é caractere de palavra: há fronteira antes do zero
    assert_eq!(p.padronizar("°007"), "7");
    // `ª` é letra: não há fronteira, os zeros ficam
    assert_eq!(p.padronizar("ª007"), "007");
    // `٣` é dígito decimal: `0٣` perde o zero, e o dígito árabe sai com a pontuação
    assert_eq!(p.padronizar("0٣"), "");
    assert_eq!(p.padronizar("0٣ 1"), "1");
}

#[test]
fn espacos_repetidos_nao_mudam_o_resultado() {
    let p = criar_padronizador();
    assert_eq!(p.padronizar("SAO     PAULO  007"), p.padronizar("SAO PAULO 007"));
    assert_eq!(p.padronizar("  a  b  "), p.padronizar("a b"));
}
