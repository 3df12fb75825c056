# resource_downloader

The core of a desktop manager for game resource lists (mods, resource packs,
shaders, datapacks, plugins), written in Verus. The functions in `src/` are proved
against their contracts, except a few small trusted ones marked
`#[verifier::external_body]` that call std or an outside crate (the clock, hashing,
lowercasing, character classes, edit distance, building a string); their doc comments
say what is believed of them, and several believe nothing beyond their types.

## Layout

- `src/` — the verified library.
  - Domain: `resource_type`, `game` (version names, channels, ordering), `lnk`,
    `project`, `mutation`, `project_list` (adding and removing projects and versions,
    with the dependency bookkeeping and its laws), `remote`.
  - Application state: `config` (sidebar groups, assignments, order), `state`,
    `effect`, `events`, `handle` (taking in events from background work).
  - Actions: `list_actions`, `list_group_actions`, `folder_actions`,
    `project_actions`, `paste`, `sidebar` (drag and drop), `import_matching`.
  - Lookups and text: `suggest` (which resource type a search is probably about),
    `collection`, `paths`, `notifications`, `text`, `seqs`.
  - Caching: `cache` (kinds of cached data, keys) and `registry` (what is cached,
    with freshness).
  - `clock`: the current time.
  - `project_actions`: adding and removing projects, and what a list change asks for
    (deleting or archiving project files, saving, rescanning); `project_status`: which
    projects are missing from disk, have an update, or should get their newest version;
    `project_filter`: the projects shown for a search, a filter and a sort order.
  - `pools`: how requests to the remote service are keyed in the cache, reading what
    is stored (nothing read means a fetch is due), and storing or forgetting what came
    back; `icon_pool`: which project icons are made or being fetched.
  - `downloads`: which files to download for requested projects and their required
    dependencies, and which projects get their newest version.
- `tests/` — tests run against the compiled library.
- `app/` — code around the library that is not verified: serde forms of the data,
  the shared cache registry with type-erased values, and calls into the library that
  first test what the library requires.

Laws that relate several operations (toggling twice restores, a read gives back a
write, deleting leaves nothing behind, removing a project leaves no orphaned
dependency, ...) are public proof functions named `law_*`.
