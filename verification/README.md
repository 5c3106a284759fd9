# parcli

A `top`-like terminal dashboard for international parcel tracking. It drives the
free [parcelsapp.com](https://parcelsapp.com) widget in headless Chrome, so no
API key is needed.

## Layout

`src/` is the library: everything that the dashboard knows, decides and shows,
with contracts that Verus proves.

- `provider`: what a tracking site reports of a parcel, and how its status is
  read; `provider::parcelsapp` catches the site's response and reads it
- `store`: the list of parcels, and what is known of each
- `poller`: which parcel is polled when, with the backoff after failures
- `worker`: the decisions of the poller, event by event, and the restart
- `enrich`, `translate`, `geo`: English texts and places for the events
- `app`: the dashboard's state, and what keys and polls do to it
- `keys`: the line in which a number is entered
- `journey`: the stops of a parcel, and the strip that shows them
- `ui`: the header, the table, the detail view, the map and the footer
- `clock`, `text`, `numerals`, `order`, `text_map`: what the others are made of

A type such as `App` has a value, such as `AppModel`, and the contracts speak of
values. The functions named `law_...` are theorems about them.

`app/` is the program around it: arguments, files, the browser, the network and
the terminal. `tests/` runs the library.

## Usage

    parcli                 # poll every 10 minutes
    parcli --interval 30   # poll every 30 minutes
    parcli --timeout 120   # seconds to wait for parcelsapp per poll (default 90)
    parcli --no-translate  # show carrier text as it is
    parcli --home ADDRESS  # where the parcels are on their way to

| Key | Action |
|---|---|
| `a` | add a tracking number (optionally followed by a label: `RB123456789CN camera`) |
| `d` | remove the selected parcel (confirms with `y`/`n`) |
| `r` / `R` | refresh selected / all |
| `Enter` | show event history; `q`/`Esc` to go back |
| `m` | show or hide the map |
| `j`/`k`, arrows | move |
| `q` | quit |

Delivered parcels stop being polled. Failed polls back off exponentially up to
an hour. Chrome or Chromium is needed; if it is not found automatically, set
`PARCLI_CHROME=/path/to/chrome`.
