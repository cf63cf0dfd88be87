use enderecobr_rs::avaliacao::{chaves_canonicas, regras_tsv};

#[test]
fn chaves_do_conjunto_canonico() {
    let txt = "UF\tMUN\tLOG\textra\n\n   \nSP\tSAO PAULO\tRUA A\r\nso\tdois\nRJ\t\tAV B\n";
    assert_eq!(
        chaves_canonicas(txt),
        vec!["UF|MUN|LOG", "SP|SAO PAULO|RUA A", "RJ||AV B"]
    );
    assert_eq!(chaves_canonicas(""), Vec::<String>::new());
    assert_eq!(chaves_canonicas("\n\n"), Vec::<String>::new());
    // a última linha entra mesmo sem quebra no fim
    assert_eq!(chaves_canonicas("A\tB\tC"), vec!["A|B|C"]);
}

#[test]
fn regras_do_arquivo_tsv() {
    let txt = "r1\ts1\t\tok\nr2\ts2\tign\tdobrada\nr3\ts3\tig3\tok\textra\n\nr4\ts4\nr5\ts5\tig5\n  \n";
    let r = regras_tsv(txt);
    assert_eq!(
        r,
        vec![
            ("r1".to_string(), "s1".to_string(), None),
            ("r3".to_string(), "s3".to_string(), Some("ig3".to_string())),
        ]
    );
    assert_eq!(regras_tsv(""), Vec::<(String, String, Option<String>)>::new());
    // `dobrada` só descarta a regra quando é o quarto campo inteiro
    assert_eq!(
        regras_tsv("a\tb\tc\tdobradas\r\n"),
        vec![("a".to_string(), "b".to_string(), Some("c".to_string()))]
    );
}
