# davenport

An MCP server that gives agents access to an Apple iCloud Calendar over CalDAV.
The calendar logic is a library verified with Verus; the server around it is
ordinary Rust.

## Layout

- `src/`: the verified library.
  - `text`: decimal digits, and prefixes counted in bytes.
  - `civil`: wall clocks, their texts, and the calls into `chrono`.
  - `model`: parsed calendars as plain values.
  - `ical`: the calls into `calcard`: parsing, writing and expanding calendars.
  - `read`: looking up properties and components.
  - `write`: changing or deleting one occurrence of a series.
  - `laws`: what holds of those changes as a whole.
  - `events`: the list of occurrences in a window, and the detail of an event.
  - `icloud`: discovery, time ranges, and the events that are sent.
  - `auth`, `config`, `error`: tokens, settings and messages.
- `app/`: the server: HTTP, MCP tools and the CalDAV client.
- `tests/`: the tests of the library.

## Tools

| Tool | What it does |
|------|--------------|
| `list_calendars` | Lists the user's calendars. |
| `list_events` | Lists expanded occurrences in a window, by default the next 30 days. |
| `get_event` | Gives the detail of one event; the original text on request. |
| `create_event` | Creates an event. |
| `update_event` | Replaces an event, where its ETag still matches. |
| `delete_event` | Deletes an event, where its ETag still matches. |

## Access

Requests to `/mcp` carry `Authorization: Bearer <MCP_AUTH_TOKEN>`. A client that
cannot set headers may send the token in the query string, as `token` or
`access_token`. Where there is a header, it alone decides. `/health` is open.

## Settings

`ICLOUD_EMAIL`, `ICLOUD_APP_SPECIFIC_PASSWORD` and `MCP_AUTH_TOKEN` have to be
set. `ICLOUD_CALDAV_URL`, `MCP_BIND` and `RUST_LOG` have defaults.
