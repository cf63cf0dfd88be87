//! As classes de caracteres `\w` e `\d` das expressões regulares em modo
//! Unicode, para os caracteres fora do ASCII.
use vstd::prelude::*;

verus! {

/// `c` é caractere de palavra Unicode (`\w`: `Alphabetic`, `Mark`,
/// `Decimal_Number`, `Connector_Punctuation` ou `Join_Control`).
pub uninterp spec fn palavra_unicode(c: char) -> bool;

/// `c` é dígito decimal Unicode (`\d`: categoria `Decimal_Number`).
pub uninterp spec fn digito_unicode(c: char) -> bool;

/// `regex_syntax::is_word_character`: diz se o caractere é de palavra Unicode.
#[verifier::external_body]
pub(crate) fn eh_palavra_unicode(c: char) -> (r: bool)
    ensures
        r == palavra_unicode(c),
{
    regex_syntax::is_word_character(c)
}

/// `Regex::is_match` de `regex` com o padrão `\A\d\z`: diz se o caractere, sozinho,
/// casa com `\d`.
#[verifier::external_body]
pub(crate) fn eh_digito_unicode(c: char) -> (r: bool)
    ensures
        r == digito_unicode(c),
{
    let mut b = [0u8; 4];
    regex::Regex::new(r"\A\d\z").unwrap().is_match(c.encode_utf8(&mut b))
}

} // verus!
