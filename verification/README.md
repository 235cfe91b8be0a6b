# demon_bluff_logic_engine

A deduction engine for the social-deduction game Demon Bluff, written in Verus.
The library under `src/` is verified: every public function carries a contract
that Verus proves.

- `expression`, `optimized_expression`: boolean expressions over claims and
  their compiled, flat form, with a proof that evaluating the compiled form
  gives the expression's truth value.
- `testimony`, `validation`: the claims villagers make and the check of a truth
  assignment against a possible board.
- `theoretical`, `theoretical_testimony`, `ability_prediction`: assignments of
  truth values, the boards that using a judge's, slayer's, plague doctor's,
  fortune teller's or jester's ability could lead to, and those boards grouped
  by ability use.
- `prediction`, `reveal_strategy`, `villager`, `player_action`: choosing seats to
  execute or reveal, and the actions a player can take.
- `board_prediction`: the board-configuration step, which keeps the candidate
  boards that agree with some assignment and decides whether the evils are
  known, shared, to be guessed, or need more information.
- `next_step`: the next actions from that decision: executions, a reveal, or
  the ability uses that narrow the evils down the most (shares compared
  exactly on integers).
- `hypothesis`, `hypotheses`, `archetype_odds`: registration, the
  sub-evaluation step and evaluation-stack bookkeeping of the hypothesis graph,
  the builders of its hypotheses, and the integer part of a role's odds of
  being in play.

`app/` holds what the library cannot: serialisable copies of its values, the
error type with the standard error traits, and the floating-point fitness
arithmetic. `tests/` runs the library on concrete games.
