# phenix

The decisions of the Phenix runtime's first-party services, written in Verus
and proved against their contracts.

- `src/` is the verified library. Each module owns one domain: the agent
  loop's state machine and the data it hands to model turns (`agent_loop`),
  step attempts (`attempts`), delegated work and its budgets (`delegation`),
  context resources, projections and their materialization (`resources`,
  `context`, `preparation`), language evidence (`language`), session
  projections (`projection`, `application`), packaged configuration
  (`configuration`), model and routing selection (`selection`), invocation
  defaults and context recovery (`invocation`), the tool catalog (`tools`),
  workspace discovery (`workspace_discovery`), benchmark outcomes
  (`benchmark`) and the local environment's bookkeeping (`environment`).
  Shared text facts live in `identity`, `text`, `lines`, `text_map` and
  `sorting`.
- Where a decision depends on something outside the library (a durable read,
  a validation another service makes, a clock), the library takes that result
  as an argument and its contract says what follows for every value of it.
- `app/` reads settings and runtime configuration from disk and runs local
  processes; it hands plain values to the library and back.
- `tests/` exercises the library on concrete values.
