# hot_iron_ox

Byzantine fault tolerant ordering in the HotStuff family, written in Verus:
the decision logic of basic HotStuff, of its second generation variant and of
chained HotStuff, with every step stated as a contract and proved.

Layout:

- `src/` — the verified library.
  - `lib.rs`: fault tolerance formulas (`n = 3f + 1`, quorums of `2f + 1`) and
    their laws.
  - `ordering.rs`, `view/`, `vote_table.rs`, `decision_tree.rs`, `crypto.rs`:
    sequence numbers, views and leader rotation, vote tables (each voter counts
    once per key), decision nodes, and the signature combination interface.
  - `decisions/`, `messages/`, `loggable_protocol.rs`: basic HotStuff — the
    per decision state machine, the vote logs, the message queues, the window
    of decisions in flight, and proofs of decisions.
  - `hot_iron/`: the second generation decision state machine and its queues.
  - `chained/`: chained HotStuff — decisions, vote and new view stores, the
    window with the three-chain commit rule, proofs and latency metrics.
- `tests/` — tests of the library on concrete scenarios.
- `app/` — the wire encoding of signed votes (serde and bincode).

The state machines do not sign or send anything themselves: what must be
signed and sent is left in each decision's outbox for the caller.
