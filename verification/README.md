# a_view

The verified core of a desktop dashboard that watches local OpenCode
sessions: which agents are running, which have stalled, which ports are held
by which processes, and whether the machine is kept awake while agents work.

- `src/` is the library, written in Verus: every function carries a contract
  and is proved against it. It normalises database rows into sessions and
  agents, classifies agent status by activity age (stalled after 45 s),
  orders logs and agents, nests child sessions, totals the snapshot,
  classifies listening processes, decides kill outcomes and messages, and
  keeps the sleep-prevention state. Laws that span several functions are
  public proof functions whose names begin with `law_`.
- `tests/` runs the library on concrete inputs.
- `app/` is the unverified shell: SQLite reads, JSON parsing, system
  commands, the operating system's sleep guard, socket enumeration and the
  desktop commands.
