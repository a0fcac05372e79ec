# creator-event-manager (verified core)

The ranking and record-keeping rules of a prediction-event contract, written
in Verus and proved against their contracts.

* `src/address.rs` — participant addresses as plain values (kind and 32-byte
  key) with the host's address order.
* `src/storage_types.rs` — events, matches, predictions, winners, event
  metadata, leaderboard and standings rows, participant scores, and the
  prediction weighting (`weighted_contribution`).
* `src/ranking.rs` — insertion sorts for leaderboard and standings rows (rows
  with equal sort keys end in the reverse of their input order), rank
  assignment, and the proof that the ranking of given rows is unique.
* `src/participant_index.rs` — participants sorted by address, searched by
  binary search while scores are rebuilt.
* `src/scoring.rs` — the model of a participant's weighted score over the
  resolved matches of an event.
* `src/leaderboard.rs` — the points leaderboard, the weighted standings
  rebuild, the standings and score reads, and their laws (order
  independence, idempotence, components adding up).
* `app/` — contract-side glue: reads the records from Soroban storage,
  converts them to the library's types, and stores the results.
