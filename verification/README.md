# irc_plugins

The decision logic of a family of IRC bot plugins, verified with Verus.

- `src/` holds the logic: for each plugin, what an incoming message asks
  for and what the bot answers, joins, stores or forgets, with contracts
  over mathematical models (`Seq<char>` texts, maps of waiting messages,
  quote lists) and the laws that tie operations together.
- `app/` is the IRC side: it receives messages with the `irc` crate, calls
  the library, sends the answers, and reads and writes the JSON records
  under `data/`, runs commands, and asks keybase.io.
- `tests/` runs the plugins on concrete messages.

Plugins: `chatkov` (Markov chatter), `chooser` (`@choose a or b`), `ddg`
(DuckDuckGo links, also for Google search URLs), `flood`, `invitation`,
`keybase`, `lewd`, `presence` (join/part), `puppet`, `quote`, `reclaim`
(nickname reclaim), `snake`, `sys` (owner commands), `tell` (messages left
for absent users), `timefor` (time zones), `users`, `whois`.
