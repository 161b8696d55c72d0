# felix_backend

The data model of Felix, a scheduler of activities that involve many people, on a daily
rate with 5-minute precision, written in Verus.

- `src/` is the verified library: times and intervals, work hours, entities, groups,
  activities, the coherence rules that tie them together (`data`), and the translation of
  activities to and from the data that the insertion computation uses (`computation`,
  `possible_beginnings_updater`), and the messages of the errors, built from translated phrases
  (`text`, `errors`). Every public operation states in its contract what it returns or changes,
  and each error with the inputs that cause it.
- `app/` holds what runs around the model: serializable copies of its components, the
  translated phrases handed to the error messages, the events run after each change, the thread
  pool and the pool of computed possible beginnings. Nothing in this crate computes possible
  beginnings or insertion costs: the pool is filled by whoever runs that search.
- `tests/` runs the library on concrete scenarios.
