# playpnp

A DLNA MediaRenderer: it shows up in BubbleUPnP, mConnect and any other UPnP control point, and
plays what is cast to it in VLC.

- `src/` is the library, verified with Verus: what the renderer announces, answers and decides. It
  does no input or output. Requests to a player give back an `Action`; the outcome comes back as an
  `Event`. Readings of the clock are handed in.
- `app/` is the program round it: sockets, the HTTP server, VLC's process, files, the tray icon.
  The icon needs GTK and AppIndicator on Linux; it is compiled in with `--cfg 'feature="tray"'`, and
  without it the daemon runs headless.
- `tests/` runs the library on concrete values.

## Modules

| Module | What it holds |
| :--- | :--- |
| `state`, `xml` | The media state, UPnP times, DIDL metadata; the device description, SOAP, events |
| `http` | The actions of the three services, subscriptions and notifications, the dashboard |
| `player` | What a player is asked, VLC's remote control, a player that only keeps the time |
| `ssdp` | Announcements, searches and their answers |
| `config`, `platform`, `identity` | Endpoints, peers, paths and names by platform, the device's UUID |
| `ipc`, `single_instance`, `tray`, `cli` | The control port, the lock, the tray menu and icon, the commands |
| `text`, `number`, `net`, `time` | Characters, decimal numbers, IPv4 addresses, spans of time |

The service descriptions that `/AVTransport/scpd.xml` and its siblings answer with are data files:
`resources/scpd/*.xml` beside the program.

## What is trusted

Contracts that are believed and not proved stand on `String::push`, on letter case and UTF-8
decoding of std, on the path separator that tells the platform, and on the `uuid` crate. Each says
in its doc comment what it claims.
