//! Padronização de endereços brasileiros: nomes de municípios e dados faltantes.
//!
//! - [`normalizacao`]: caixa alta, sem acentos, sem espaços nas pontas;
//! - [`padronizador`]: as regras de reescrita de nomes de municípios;
//! - [`fonetica`] e [`pareamento`]: a chave usada para parear grafias diferentes;
//! - [`tabela`]: a leitura da tabela de municípios em CSV;
//! - [`municipio`]: a montagem da tabela de busca e a padronização de municípios;
//! - [`dado_faltante`]: o reconhecimento de valores como `NAO POSSUI`;
//! - [`colecoes`]: as coleções de `rustc_hash` e a ordenação de `itertools`;
//! - [`classes`]: as classes Unicode de caracteres de palavra e de dígito;
//! - [`avaliacao`]: a leitura dos arquivos da avaliação de pareamento;
//! - [`texto`]: funções básicas sobre sequências de caracteres.

pub mod avaliacao;
pub mod classes;
pub mod colecoes;
pub mod dado_faltante;
pub mod fonetica;
pub mod municipio;
pub mod normalizacao;
pub mod padronizador;
pub mod pareamento;
pub mod tabela;
pub mod texto;
