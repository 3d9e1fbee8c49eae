# notch

A token vault for Solana, verified with Verus. A token trades against its own
vault: a buy pays into it and mints, a sell burns and redeems. The quoted price
and the floor (what the vault holds per unit) only rise.

`src/` is the library, all of it verified:

| module | what it holds |
| --- | --- |
| `q48` | fixed-point logarithm, exponential and power |
| `powers`, `accuracy`, `growth` | how close those come to the real ones, and what that means for a vault |
| `bytes`, `key`, `program_ids`, `address` | integers in bytes, addresses, their text forms, the derived ones |
| `error`, `state`, `token`, `instruction` | errors, stored curves, sent instructions, SPL accounts, calls of other programs |
| `market` | what a trade costs and pays |
| `program` | what the on-chain program checks and decides |
| `client` | the instructions that a wallet sends |
| `schedule` | the chunked schedule that the test suite compares with |
| `laws`, `round_trip`, `splitting`, `program_laws` | what holds through every sequence of trades |
| `schedule_laws` | what holds of every buy on that schedule |

`app/` is the ordinary Rust around it: the on-chain entry point, which hands
accounts to the library and carries out what it decides, the launcher, and the
suite that trades against a validator. `tests/` runs the library.

The laws say, among others, that no step lowers the price or the floor, that the
floor always backs the governor's share of the price, that holders can always
sell and the vault covers them all, that a full exit leaves nothing behind, that
a buyer's loss is bounded by the fees and the backing, and that splitting a buy
does not pay.
