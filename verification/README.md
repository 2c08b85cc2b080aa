# ring-wallet

The wallet and the book behind a market on Zcash blocks: people deposit
shielded money, stake it on which miner takes a block, and withdraw it.

`src/` is the library, written and proved in Verus.

- The book: `rows` and `book` say what is recorded and what each operation
  makes of it, `ledger` runs the operations, `refusal` says why one is
  refused, `opening` takes up stored rows. `sums`, `division` and `rules` hold
  the arithmetic, and `laws`, `history` and `supply` what holds of every book:
  no round creates or loses money, nobody is left owing the house, nothing is
  paid or settled twice, and sums within the money supply fit.
- Blocks: `blocks` reads a miner's name out of a coinbase, `cache` holds
  compact blocks between downloading and scanning them.
- The wallet: `keys`, `payment`, `memo` and `scan`, on one of the two chains in
  `network`.
- Around them: `serve` for the market's requests, `cli` for the command line,
  `clock` and `text`.

Keys, transactions and memos are read by the Zcash crates. Each such call
stands behind one small function whose doc comment says what is taken on
trust.

`app/` is the program: the files, the database, the network and the HTTP
routes. It asks the library what to do, and does it.
