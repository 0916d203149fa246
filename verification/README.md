# archer_jup

Quotes and swap accounts for markets of the Archer program, for a router that
drives many kinds of markets.

`src/` is the library. It decodes a market, its registry and its makers' books
from account bytes, gathers the books' open levels into one ladder, walks the
ladder with a taker's budget the way the on-chain program does, and lists the
accounts of the swap. All of it is proved with Verus, on what it claims of the
few calls into other crates.

| module | what is in it |
| --- | --- |
| `state`, `layout`, `decode` | accounts and their bytes |
| `sdk`, `token`, `address`, `decimal` | calls into other crates, and what is claimed of them |
| `lots` | lot conversions, shares and fees |
| `ladder`, `fills`, `matching` | ordering levels, sharing a fill, spending a budget |
| `quote` | which books take part, and what a swap gives |
| `router`, `amm` | the market as a router sees it |
| `laws`, `monotone` | what holds of all of this together |

`app/` puts the library behind Jupiter's `Amm` trait.
