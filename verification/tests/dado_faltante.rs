use enderecobr_rs::normalizacao::normalizar;
use enderecobr_rs::dado_faltante::{
    criar_identificador_dado_faltante, is_dado_faltante, zerar_dado_faltante, IdentificadorDadoFaltante,
    Padrao,
};

#[test]
fn checagem_simples() {
    assert_eq!(is_dado_faltante("NAO POSSUI"), true);
    assert_eq!(is_dado_faltante("RUA A"), false);
    assert_eq!(is_dado_faltante("VL SILVANIA"), false);
}

#[test]
fn reconhece_siglas() {
    let id = criar_identificador_dado_faltante();
    for v in ["SI", "NS", "NI", "NA"] {
        assert!(id.identificar(v), "{}", v);
    }
    assert!(!id.identificar("SIM"));
    assert!(!id.identificar("S I"));
    assert!(!id.identificar("NA "));
}

#[test]
fn reconhece_desconhecido() {
    let id = criar_identificador_dado_faltante();
    assert!(id.identificar("DESCON"));
    assert!(id.identificar("DESCONHECIDO"));
    assert!(!id.identificar("DESCONHECIDO X"));
    assert!(!id.identificar(" DESCONHECIDO"));
}

#[test]
fn reconhece_sem_informacao() {
    let id = criar_identificador_dado_faltante();
    assert!(id.identificar("SEM INFORMACAO"));
    assert!(id.identificar("SEMINFO"));
    assert!(id.identificar("S INFO"));
    assert!(id.identificar("S    INFORMADO"));
    assert!(!id.identificar("SEM INFORMACAO DA RUA"));
    assert!(!id.identificar("SEM NOME"));
}

#[test]
fn reconhece_negacoes() {
    let id = criar_identificador_dado_faltante();
    assert!(id.identificar("N"));
    assert!(id.identificar("NAO"));
    assert!(id.identificar("NAO   "));
    assert!(id.identificar("NAO CONSTA"));
    assert!(id.identificar("N TEM"));
    assert!(id.identificar("NAOSEI"));
    assert!(!id.identificar("NAO CONSTAVA"));
    assert!(id.identificar("NAO POSSUI"));
    assert!(id.identificar("N LOCALIZADO"));
    assert!(id.identificar("NAO ESPECIFICADO"));
    assert!(id.identificar("NAO INFORMADO"));
    assert!(id.identificar("NAO FORNECIDO"));
    assert!(id.identificar("NAO EXISTE"));
    assert!(id.identificar("NAO PENSOU"));
    assert!(id.identificar("NAO LEMBRA"));
    assert!(id.identificar("NAO SABIA"));
    assert!(id.identificar("NAO SABE INFORMAR"));
    assert!(id.identificar("N SABE   INFO"));
    assert!(id.identificar("NAO SABE"));
    assert!(!id.identificar("NAO SABE X"));
    assert!(!id.identificar("NAO POSSUI NUMERO"));
    assert!(!id.identificar("NORTE"));
}

#[test]
fn normaliza_antes_de_reconhecer() {
    assert!(is_dado_faltante("  não possui  "));
    assert!(is_dado_faltante("sem informação"));
    assert!(is_dado_faltante("desconhecido"));
    assert!(!is_dado_faltante("rua das flores"));
}

#[test]
fn zera_apenas_dados_faltantes() {
    assert_eq!(zerar_dado_faltante("NAO POSSUI".to_string()), "");
    assert_eq!(zerar_dado_faltante("RUA A".to_string()), "RUA A");
    // sem normalizar: minúsculas não são reconhecidas
    assert_eq!(zerar_dado_faltante("nao possui".to_string()), "nao possui");
    assert_eq!(zerar_dado_faltante("".to_string()), "");
}

#[test]
fn zerar_a_forma_normalizada_equivale_a_reconhecer() {
    for v in ["nao possui", " Sem Informação ", "RUA A", "desconhecida", "NA", "n", "vila"] {
        let n = normalizar(v);
        assert!(!n.is_empty());
        assert_eq!(is_dado_faltante(v), zerar_dado_faltante(n.clone()).is_empty(), "{}", v);
        assert_eq!(is_dado_faltante(&n), is_dado_faltante(v), "{}", v);
    }
    // a lei não vale para o texto vazio: ele não é dado faltante, mas zerá-lo dá vazio
    assert!(!is_dado_faltante(""));
    assert_eq!(zerar_dado_faltante(normalizar("   ")), "");
}

#[test]
fn identificador_tem_seis_padroes() {
    assert_eq!(criar_identificador_dado_faltante().padroes.len(), 6);
    let so_siglas = IdentificadorDadoFaltante { padroes: vec![Padrao::Sigla] };
    assert!(so_siglas.identificar("NA"));
    assert!(!so_siglas.identificar("DESCONHECIDO"));
    let nenhum = IdentificadorDadoFaltante { padroes: vec![] };
    assert!(!nenhum.identificar("NA"));
    let negacoes = IdentificadorDadoFaltante {
        padroes: vec![Padrao::NaoConsta, Padrao::NaoVerbo],
    };
    assert!(negacoes.identificar("NAO CONSTA"));
    assert!(negacoes.identificar("N POSSUI"));
    assert!(!negacoes.identificar("SEM INFO"));
}
