# mafia_bot

A moderator for games of Mafia played over GroupMe, with its game logic
written in Verus and proved against its contracts.

## Layout

- `src/` — the verified library.
  - `engine/` — the index-based game: players, votes, night targets,
    dawn resolution, and the contracts of guards and agents.
  - `mafia/` — the timed game: roles and teams, phases, the validation
    and performance of actions, night actions resolved by priority, the
    update that elects, dawns and ends a game, role generation for a set
    of players, the status report, and the messages each event sends to
    the chats.
  - `lobby.rs` — the generic lobby game with start steps and votes.
  - `trial.rs` — a small trial game model.
  - `rolegen.rs`, `rolegen/` — scores of role sets and the draws of
    balanced role lists.
  - `groupme/` — ids, members and groups, push-channel messages, the
    handshake and subscription of the push listener, and API payloads.
  - `chance.rs` — the random draws the library takes from `rand`.
  - `text.rs` — how numbers are written in the texts the bot sends.
- `app/` — ordinary Rust around the library: the normal-distribution
  draws of the role generator, the serde shapes of the GroupMe API, the
  process environment, and the loops of the event listener and of the
  push handshake.
- `tests/` — tests of the library.
