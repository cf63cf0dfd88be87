use enderecobr_rs::pareamento::{nomes_alternativos, padronizar_para_pareamento};

#[test]
fn chave_de_pareamento() {
    assert_eq!(padronizar_para_pareamento(""), "");
    assert_eq!(padronizar_para_pareamento("SAO THOME DAS LETRAS"), "SAO TOME LETRAS");
    assert_eq!(padronizar_para_pareamento("MOGI MIRIM"), "MOJI MIRIM");
    assert_eq!(padronizar_para_pareamento("BRASOPOLIS"), "BRAZOPOLIS");
    assert_eq!(padronizar_para_pareamento("SAO LUIZ DO PARAITINGA"), "SAO LUIS PARAITINGA");
    assert_eq!(padronizar_para_pareamento("PARATY"), "PARATI");
    assert_eq!(padronizar_para_pareamento("SANT'ANA DO LIVRAMENTO"), "SANTANA LIVRAMENTO");
    // letras repetidas caem, exceto S e R
    assert_eq!(padronizar_para_pareamento("ITTAPEVVA"), "ITAPEVA");
    assert_eq!(padronizar_para_pareamento("PASSA"), "PASSA");
    assert_eq!(padronizar_para_pareamento("BARRA"), "BARRA");
    // só preposições
    assert_eq!(padronizar_para_pareamento("DE DA E"), "");
}

#[test]
fn hifen_equivale_a_espaco() {
    assert_eq!(
        padronizar_para_pareamento("PASSA-VINTE"),
        padronizar_para_pareamento("PASSA VINTE")
    );
    assert_eq!(
        padronizar_para_pareamento("OLHO-D'AGUA DO BORGES"),
        padronizar_para_pareamento("OLHO D'AGUA DO BORGES")
    );
}

#[test]
fn preposicoes_nao_importam() {
    assert_eq!(
        padronizar_para_pareamento("LAGOA DO ITAENGA"),
        padronizar_para_pareamento("LAGOA DE ITAENGA")
    );
    assert_eq!(
        padronizar_para_pareamento("BELEM DE SAO FRANCISCO"),
        padronizar_para_pareamento("BELEM SAO FRANCISCO")
    );
}

#[test]
fn alternativas_de_nomes() {
    assert_eq!(nomes_alternativos("SAO PAULO"), Vec::<String>::new());
    assert_eq!(
        nomes_alternativos("LAGOA D'ANTA"),
        vec!["LAGOA ANTA", "LAGOA D ANTA", "LAGOA DANTA"]
    );
    // apóstrofo no fim: a expansão não tem caractere seguinte
    assert_eq!(nomes_alternativos("ABC'"), vec!["ABC", "ABC "]);
}

#[test]
fn letra_dobrada_nao_muda_a_chave() {
    assert_eq!(padronizar_para_pareamento("MOGGI MIRIM"), padronizar_para_pareamento("MOGI MIRIM"));
    assert_eq!(padronizar_para_pareamento("PARATTY"), padronizar_para_pareamento("PARATY"));
    // S e R dobrados contam
    assert_ne!(padronizar_para_pareamento("PASSA"), padronizar_para_pareamento("PASA"));
    assert_ne!(padronizar_para_pareamento("BARRA"), padronizar_para_pareamento("BARA"));
}

#[test]
fn preposicao_no_texto_nao_muda_a_chave() {
    for p in ["DE", "DA", "DO", "DAS", "DOS", "DEL", "E"] {
        assert_eq!(
            padronizar_para_pareamento(&format!("ILHA {} JOAO", p)),
            padronizar_para_pareamento("ILHA JOAO"),
            "{}",
            p
        );
    }
}

#[test]
fn espacos_refeitos_nao_mudam_a_chave() {
    let s = "  SAO \t JOAO   DEL  REI ";
    let refeito = s.split_whitespace().collect::<Vec<_>>().join(" ");
    assert_eq!(padronizar_para_pareamento(&refeito), padronizar_para_pareamento(s));
}
