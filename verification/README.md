# Butane oracle

The off-chain code of an oracle feed, with its rules proved in [Verus](https://github.com/verus-lang/verus).

A small group of nodes gathers prices from exchanges and pools, elects a leader, agrees on what the leader proposes, and
signs it together. Anyone can then show the signed prices to a smart contract that knows the group's key.

## Layout

- `src/` is the library. Everything in it is verified: prices and how they are derived from each other, the election
  protocol, the signing rounds, key generation, the handshake and the connections between nodes, what is published and
  what is reported. Nothing in it does I/O: a function takes what happened and returns what to do.
- `app/` is the program around the library: sockets, HTTP, files, the clock and the environment.
- `tests/` runs the library.

The main modules:

| module | what it has |
| --- | --- |
| `raft` | who leads, and since when |
| `signature_aggregator` | rounds of signing, what was signed last, and when a leader should step down |
| `price_aggregator` | values of tokens, smoothing, normalization, and the prices of a round |
| `price_feed`, `plutus` | feeds as smart contracts read them |
| `dkg`, `frost`, `keys` | keys of the group and of nodes |
| `network`, `networking` | handshakes, connections, and who gets a message |
| `sources` | what the answers of exchanges and pools mean |
| `config`, `health`, `api`, `publisher`, `archive` | what a node goes by, and what it tells others |
| `numbers`, `decimal`, `names`, `encoding`, `text` | numbers of any size, maps by name, and texts |

## Contracts

Contracts speak of views: a `Natural` is a `nat`, a `Rational` a `real`, a map by name a `Map`, a message or a state a
struct of such values. Where chance is involved, a function that draws stands beside one that takes what was drawn and
has an exact contract.

What spans several functions stands as a public proof function whose name begins with `law_`: that there is one leader
per term (`raft::laws`), that a signature takes a quorum that agrees (`signature_aggregator::laws`), that falling prices
are followed at once (`price_aggregator::gema`), that feeds are read as they were written (`price_feed::codec`), and
more.

What other crates do is not proved. Each such function stands behind a wrapper whose contract says what is believed of
it, in the module that needs it.

## Running a node

```
oracles --config-file config.yaml
```

Keys are read from `keys/`, or from the directory that `KEYS_DIRECTORY` names; prices are kept in `data/`, or in the one
that `DATA_DIRECTORY` names. A node's own key is `private.pem`. With `keygen.enabled`, the nodes generate the keys of
their group together and print its address.

`oracles keygen` makes the keys of a group all at once, `oracles frost-poc` shows how a group signs a message, and
`oracles archive` keeps what is published.
