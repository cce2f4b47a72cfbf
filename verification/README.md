# dlmm

A liquidity book for two tokens, `X` and `Y`, whose liquidity sits in discrete price
bins. Bins are stored 32 at a time in bin arrays; a liquidity provider's shares in up to
70 consecutive bins are kept in a position.

`src/` is the verified library:

- `state`, `pubkey`, `error`, `constants`: the accounts' data as plain values and the
  error codes.
- `pda`: where the bin array holding a bin lives (`find_bin_array`); the program
  derived address itself comes from anchor_lang behind one trusted wrapper.
- `math`: the integer square root used for the first shares of a bin.
- `instructions`: the handlers `handler` (new pool), `bin_array_handler` (new bin array),
  `liquidity_handler` (deposit), `remove_liquidity_handler` (withdrawal) and
  `swap_handler`, each stated exactly by a spec function of the same name with a
  `_spec` suffix, together with the laws proved of them.
- `reserves`: sums of reserves and shares over all bins, used to state the
  conservation laws.

Every handler is transactional: on an error it leaves its accounts as they were.

`app/` is the on-chain Anchor program around the library: account validation, loading
and storing accounts, and the token transfers.
