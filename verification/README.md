# wan_party_bot

A Discord bot for the WAN Party server: reactions and canned replies, quotes,
haiku and rhymes from the CMU pronouncing dictionary, a coin-flip casino with a
jail, a weekly games poll, a leaderboard, and conversation through a language
model with a rolling context and a long-term memory digest.

## Layout

- `src/` — the library, verified with Verus: message routing and reactions,
  text formats (Python's `repr` and `str(timedelta)`, rhyme listings, SQL rows,
  jail census), the dictionary, syllable counting, rhymes, the Markov haiku, the
  casino and jail rules, the poll and its schedule, the leaderboard tally and
  order, the conversation context, the memory queue and digest, the prompts,
  the route of a message addressed to the bot and the reaction to a failed model
  request, and the reading of dice expressions.
  Every public function states its result in its contract; the laws of the
  library are public proof functions. Where chance decides (the haiku draws and
  the random pickers), a verified function takes the drawn number and says what
  it gives, and the contract of the drawing function says which results some
  draw can give; a redraw takes a batch of `DRAW_LIMIT` draws and gives up only
  when none of them fits at the state the line has reached, or when a line runs
  to `DRAW_LIMIT` words.
- `app/` — the program around it: the serenity gateway handlers and slash
  commands, SQLite, the HTTP calls to the model APIs and Giphy, the data files,
  the clock, and the floating-point parts (the brain-estimate scores, dice
  arithmetic, and the yes/no verdict thresholds).
- `tests/` — tests of the library on concrete values.

## Running

Set `DISCORD_TOKEN`, `ANTHROPIC_API_KEY`, `ANTHROPIC_MODEL` (the id of
Anthropic's Haiku 4.5 model), and optionally `JEV_API_KEY` and `GIPHY_TOKEN`.
Run from the directory holding `data/`, `corpora/` and `wanparty.db`. With the
argument `poll`, the program posts the weekly games poll and exits.
