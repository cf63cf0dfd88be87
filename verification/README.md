# enderecobr_rs (verificado)

Padronização de nomes de municípios brasileiros e reconhecimento de dados
faltantes em endereços, com contratos provados pelo Verus.

- `src/normalizacao.rs`: caixa alta, remoção de acentos e de espaços nas pontas.
- `src/padronizador.rs`: as três regras de reescrita aplicadas aos nomes de
  municípios (zeros à esquerda, espaços repetidos, caracteres fora de `[ A-Z0-9'-]`).
- `src/fonetica.rs`, `src/pareamento.rs`: a chave de pareamento (hífens, letras
  repetidas, preposições, chave fonética) e as grafias alternativas de nomes
  com apóstrofo.
- `src/tabela.rs`: leitura da tabela de municípios em CSV (`codigo,nome,uf`).
- `src/municipio.rs`: montagem da tabela de busca e `padronizar_municipios`.
- `src/dado_faltante.rs`: os padrões de dado faltante (`NAO POSSUI`, `SEM INFO`...).
- `src/colecoes.rs`: `FxHashMap`/`FxHashSet` de `rustc_hash` e `Itertools::sorted`,
  atrás de contratos confiados.
- `src/classes.rs`: as classes Unicode `\w` e `\d`, decididas por `regex_syntax`
  e `regex`, atrás de contratos confiados.
- `src/avaliacao.rs`: a leitura dos arquivos da avaliação de pareamento (o conjunto
  canônico e o arquivo de regras, separados por tabulação).

A tabela de municípios não vem embutida: `criar_municipio_map` recebe o texto do
CSV, e `padronizar_municipios` recebe a tabela montada.
