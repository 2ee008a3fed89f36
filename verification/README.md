# analytics_lib

A verified library in two parts.

**Datasets and queries** (`dataset`, `query`, `solution`, `text`): a dataset has named,
typed columns and rows of string or integer values. A query keeps the rows that satisfy a
condition, groups them by one column and aggregates each group (count, sum, average). Every
operation has a contract over a mathematical view of the data (`SpecDataset`, `SpecValue`),
and `laws` proves how the operations relate: a condition and its negation split the rows,
`And` is filtering twice, grouping puts each row in exactly one group and loses none, and
dataset equality ignores row order. `query_can_run` and `checked_compute_query` decide, without
a panic, whether a query can run.

**Tic-tac-toe agents** (`board`, `heuristic`, `search`, `agent3x3`, `agent5x5`): the
decisions of a minimax search. The board itself belongs to the crate `tic_tac_toe_stencil`; the
library receives what the search reads from it (the squares, the score, the moves, the
children's scores) and returns the decisions: the estimate of a position, the best reply, the
alpha-beta bounds and pruning, and the iterative-deepening step.

`app/` holds what runs around the library: the server's calls, the printing of a dataset
through `Display`, and the agents plugged into `tic_tac_toe_stencil`'s board.
