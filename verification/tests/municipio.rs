use enderecobr_rs::colecoes::MapaTexto;
use enderecobr_rs::municipio::{criar_municipio_map, padronizar_municipios};
use enderecobr_rs::pareamento::nomes_alternativos;

/// Um recorte da tabela de municípios do IBGE, no formato `codigo,nome,uf`.
fn tabela() -> MapaTexto {
    let csv = "codigo_municipio,nome_municipio,uf
3304557,Rio de Janeiro,RJ
3550308,São Paulo,SP
3530805,Mogi Mirim,SP
3303807,Paraty,RJ
2406304,Lagoa d'Anta,RN
4206108,Grão-Pará,SC
3506607,Biritiba Mirim,SP
3550001,São Luiz do Paraitinga,SP
3305901,Trajano de Moraes,RJ
2608503,Lagoa de Itaenga,PE
1502954,Eldorado do Carajás,PA
4317103,Sant'Ana do Livramento,RS
2601607,Belém do São Francisco,PE
5107800,Santo Antônio de Leverger,MT
5107008,Poxoréu,MT
3165206,São Tomé das Letras,MG
2408409,Olho d'Água do Borges,RN
2306306,Itapajé,CE
2922250,Muquém do São Francisco,BA
3123601,Dona Euzébia,MG
3147808,Passa Vinte,MG
2800100,Amparo do São Francisco,SE
3108909,Brazópolis,MG
2515401,São Vicente do Seridó,PB
2607505,Iguaracy,PE
2401305,Campo Grande,RN
5002704,Campo Grande,MS
3516101,Florínea,SP
1720853,Tabocão,TO
1720150,São Valério,TO
1600600,Santana,AP
2516151,Tacima,PB
2401651,Boa Saúde,RN
2513968,São Domingos,PB
";
    criar_municipio_map(csv)
}

#[test]
fn padroniza_corretamente() {
    let m = tabela();
    assert_eq!(padronizar_municipios(&m, "3304557"), "RIO DE JANEIRO");
    assert_eq!(padronizar_municipios(&m, "330455"), "RIO DE JANEIRO");
    assert_eq!(padronizar_municipios(&m, "03304557"), "RIO DE JANEIRO");
    assert_eq!(padronizar_municipios(&m, "0330455"), "RIO DE JANEIRO");
    assert_eq!(padronizar_municipios(&m, " 3304557 "), "RIO DE JANEIRO");
    assert_eq!(padronizar_municipios(&m, "rio de janeiro"), "RIO DE JANEIRO");
    assert_eq!(padronizar_municipios(&m, ""), ""); // string vazia → string vazia
    assert_eq!(padronizar_municipios(&m, "SÃO PAULO"), "SAO PAULO");
    assert_eq!(padronizar_municipios(&m, "MOJI MIRIM"), "MOGI MIRIM");
    assert_eq!(padronizar_municipios(&m, "PARATI"), "PARATY");
    assert_eq!(padronizar_municipios(&m, "PARATI!!!!"), "PARATY");
    assert_eq!(padronizar_municipios(&m, "BANANA"), "");
    assert_eq!(padronizar_municipios(&m, "LAGOA D'ANTA"), "LAGOA D'ANTA");
    assert_eq!(padronizar_municipios(&m, "LAGOA DANTA"), "LAGOA D'ANTA");
    assert_eq!(padronizar_municipios(&m, "LAGOA D ANTA"), "LAGOA D'ANTA");
    assert_eq!(padronizar_municipios(&m, "LAGOA DA ANTA"), "LAGOA D'ANTA");
}

#[test]
fn testa_nomes_alternativos() {
    assert_eq!(
        nomes_alternativos("LAGOA D'ANTA DE SANT'ANA"),
        vec![
            "LAGOA ANTA SANTANA",
            "LAGOA D ANTA DE SANT ANA",
            "LAGOA DANTA DE SANTANA",
            "LAGOA DANTA SANTA ANA"
        ]
    );
}

#[test]
fn padroniza_casos_especificos() {
    let m = tabela();
    assert_eq!(padronizar_municipios(&m, "MOJI MIRIM"), "MOGI MIRIM");
    assert_eq!(padronizar_municipios(&m, "GRAO PARA"), "GRAO-PARA");
    assert_eq!(padronizar_municipios(&m, "BIRITIBA-MIRIM"), "BIRITIBA MIRIM");
    assert_eq!(
        padronizar_municipios(&m, "SAO LUIS DO PARAITINGA"),
        "SAO LUIZ DO PARAITINGA"
    );
    assert_eq!(
        padronizar_municipios(&m, "TRAJANO DE MORAIS"),
        "TRAJANO DE MORAES"
    );
    assert_eq!(padronizar_municipios(&m, "PARATI"), "PARATY");
    assert_eq!(
        padronizar_municipios(&m, "LAGOA DO ITAENGA"),
        "LAGOA DE ITAENGA"
    );
    assert_eq!(
        padronizar_municipios(&m, "ELDORADO DOS CARAJAS"),
        "ELDORADO DO CARAJAS"
    );
    assert_eq!(
        padronizar_municipios(&m, "SANTANA DO LIVRAMENTO"),
        "SANT'ANA DO LIVRAMENTO"
    );
    assert_eq!(
        padronizar_municipios(&m, "BELEM DE SAO FRANCISCO"),
        "BELEM DO SAO FRANCISCO"
    );
    assert_eq!(
        padronizar_municipios(&m, "SANTO ANTONIO DO LEVERGER"),
        "SANTO ANTONIO DE LEVERGER"
    );
    assert_eq!(padronizar_municipios(&m, "POXOREO"), "POXOREU");
    assert_eq!(
        padronizar_municipios(&m, "SAO THOME DAS LETRAS"),
        "SAO TOME DAS LETRAS"
    );
    assert_eq!(
        padronizar_municipios(&m, "OLHO-D'AGUA DO BORGES"),
        "OLHO D'AGUA DO BORGES"
    );
    assert_eq!(padronizar_municipios(&m, "ITAPAGE"), "ITAPAJE");
    assert_eq!(
        padronizar_municipios(&m, "MUQUEM DE SAO FRANCISCO"),
        "MUQUEM DO SAO FRANCISCO"
    );
    assert_eq!(padronizar_municipios(&m, "DONA EUSEBIA"), "DONA EUZEBIA");
    assert_eq!(padronizar_municipios(&m, "PASSA-VINTE"), "PASSA VINTE");
    assert_eq!(
        padronizar_municipios(&m, "AMPARO DE SAO FRANCISCO"),
        "AMPARO DO SAO FRANCISCO"
    );
    assert_eq!(padronizar_municipios(&m, "BRASOPOLIS"), "BRAZOPOLIS");
    assert_eq!(padronizar_municipios(&m, "SERIDO"), "SAO VICENTE DO SERIDO");
    assert_eq!(padronizar_municipios(&m, "IGUARACI"), "IGUARACY");
    assert_eq!(padronizar_municipios(&m, "AUGUSTO SEVERO"), "CAMPO GRANDE");
    assert_eq!(padronizar_municipios(&m, "FLORINIA"), "FLORINEA");
    assert_eq!(padronizar_municipios(&m, "FORTALEZA DO TABOCAO"), "TABOCAO");
    assert_eq!(
        padronizar_municipios(&m, "SAO VALERIO DA NATIVIDADE"),
        "SAO VALERIO"
    );
}

#[test]
fn exemplos_da_documentacao() {
    let m = tabela();
    assert_eq!(padronizar_municipios(&m, "003304557"), "RIO DE JANEIRO");
    assert_eq!(padronizar_municipios(&m, "  3304557  "), "RIO DE JANEIRO");
    assert_eq!(padronizar_municipios(&m, "RIO DE JANEIRO"), "RIO DE JANEIRO");
    assert_eq!(padronizar_municipios(&m, "!!!!"), "");
}

#[test]
fn canonicos_tem_precedencia_sobre_aliases() {
    let csv = "codigo,nome,uf\n2401305,Augusto Severo,RN\n2513158,Seridó,PB\n";
    let m = criar_municipio_map(csv);
    assert_eq!(padronizar_municipios(&m, "AUGUSTO SEVERO"), "AUGUSTO SEVERO");
    assert_eq!(padronizar_municipios(&m, "SERIDO"), "SERIDO");
    // os demais nomes antigos continuam valendo
    assert_eq!(padronizar_municipios(&m, "POXOREO"), "POXOREU");
}

#[test]
fn busca_por_codigo_e_codigo_reduzido() {
    let m = tabela();
    assert_eq!(padronizar_municipios(&m, "3550308"), "SAO PAULO");
    assert_eq!(padronizar_municipios(&m, "355030"), "SAO PAULO");
    assert_eq!(padronizar_municipios(&m, "0000355030"), "SAO PAULO");
    assert_eq!(padronizar_municipios(&m, "35503"), "");
}

#[test]
fn registro_posterior_prevalece() {
    // dois registros com o mesmo código: vale o último
    let csv = "codigo,nome,uf\n1234567,Primeiro,XX\n1234567,Segundo,XX\n";
    let m = criar_municipio_map(csv);
    assert_eq!(padronizar_municipios(&m, "1234567"), "SEGUNDO");
    assert_eq!(padronizar_municipios(&m, "123456"), "SEGUNDO");
    assert_eq!(padronizar_municipios(&m, "PRIMEIRO"), "PRIMEIRO");
}

#[test]
fn formato_do_csv() {
    // fim de linha \r\n e última linha sem quebra
    let csv = "codigo,nome,uf\r\n3304557,Rio de Janeiro,RJ\r\n3550308,São Paulo,SP";
    let m = criar_municipio_map(csv);
    assert_eq!(padronizar_municipios(&m, "3304557"), "RIO DE JANEIRO");
    assert_eq!(padronizar_municipios(&m, "SAO PAULO"), "SAO PAULO");
    // só o cabeçalho: nenhum município, só os nomes antigos
    let vazio = criar_municipio_map("codigo,nome,uf\n");
    assert_eq!(padronizar_municipios(&vazio, "RIO DE JANEIRO"), "");
    assert_eq!(padronizar_municipios(&vazio, "FLORINIA"), "FLORINEA");
    let nada = criar_municipio_map("");
    assert_eq!(padronizar_municipios(&nada, "3304557"), "");
}

#[test]
fn resultado_e_vazio_ou_nome_oficial() {
    let m = tabela();
    for v in ["", "xyz", "SAO", "3304557", "sao paulo", "ITAPAGE", "CAMPO DE SANTANA"] {
        let r = padronizar_municipios(&m, v);
        assert!(r.is_empty() || m.values().any(|x| *x == r), "{}", v);
    }
    assert_eq!(padronizar_municipios(&m, "CAMPO DE SANTANA"), "TACIMA");
}

#[test]
fn ignora_caixa_pontas_e_hifens() {
    let m = tabela();
    assert_eq!(padronizar_municipios(&m, "  são tomé das letras  "), "SAO TOME DAS LETRAS");
    assert_eq!(padronizar_municipios(&m, "passa-vinte"), "PASSA VINTE");
    assert_eq!(padronizar_municipios(&m, "Biritiba--Mirim"), "BIRITIBA MIRIM");
}

#[test]
fn padronizar_municipios_e_idempotente_na_tabela() {
    let m = tabela();
    for v in ["rio de janeiro", "3304557", "330455", "PARATI", "mogi mirim", "xyz", "SANTANA"] {
        let r = padronizar_municipios(&m, v);
        assert_eq!(padronizar_municipios(&m, &r), r, "{}", v);
    }
}

#[test]
fn espacos_repetidos_nao_mudam_o_municipio() {
    let m = tabela();
    assert_eq!(padronizar_municipios(&m, "sao    paulo"), padronizar_municipios(&m, "sao paulo"));
    assert_eq!(padronizar_municipios(&m, "  lagoa  d'anta "), "LAGOA D'ANTA");
}

#[test]
fn espacos_refeitos_nao_mudam_o_municipio() {
    let m = tabela();
    for v in ["  rio   de  janeiro ", "sao paulo", " 003304557  ", "mogi  mirim!", "a  b"] {
        let refeito = v.split(' ').filter(|w| !w.is_empty()).collect::<Vec<_>>().join(" ");
        assert_eq!(padronizar_municipios(&m, &refeito), padronizar_municipios(&m, v), "{}", v);
    }
}
