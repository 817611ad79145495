# tupi

The trust and inventory core of Tupi, a desktop catalog of trusted AI assets
(marketplaces, agents, prompts, skills and instructions), written in Verus.

- `src/` is the verified library. `catalog` holds the catalog rules;
  `state` the records the application keeps and how they are derived:
  the catalog in force (`catalog_store`), global agents (`global_agents`),
  installed marketplaces (`installed_marketplaces`, with the laws of their
  stored form in `inventory_laws`), marketplace agents
  (`marketplace_agents`), profiles (`profiles_store`) and repository
  updates (`repo_sync`). `text` and `order` hold the text operations and the
  stable sort the rest is stated in.
- `tests/` runs the library on concrete values.
- `app/` is the command-line program around the library: the SQLite
  database, folder walks, git, the environment and the clock.
