# TabScreen

TabScreen turns an Android tablet into a second monitor with stylus input, a wireless touchpad or a
remote speaker for a Linux computer that runs KDE Plasma on Wayland. This is its server: a library
whose behaviour is stated in contracts and proved with Verus, and the program around it.

## Layout

`src/` holds the library.

| module | what it decides |
|--------|-----------------|
| `bytes`, `text` | byte layouts of integers, building and searching text |
| `protocol`, `framing`, `wire` | the messages of either side, cutting a byte stream into frames, and that reading undoes writing |
| `crypto`, `security`, `connection` | the TLS identity, the pairing code, the challenge that only a paired tablet answers, and the way from a connection to a session |
| `session` | what a tablet's messages lead to, what it is sent, how its second screen is set up, how the session ends |
| `uinput`, `pen`, `touch`, `touchpad` | the virtual input devices: how they are created and what the kernel is told |
| `video`, `audio` | the capture pipelines, and where the sound goes while a tablet is connected |
| `json`, `kde`, `wayland`, `trust`, `paths`, `tray`, `discovery` | what the desktop reports and what is asked of it |

`app/` is the program: sockets, TLS streams, device files, GStreamer, Wayland and D-Bus, and all
arithmetic in floating point. It performs what the library decides and hands back what came of it.

`tests/` runs the library on concrete values.

## What is relied upon

A few functions of other crates are called from the library. What the proofs rely on of each is
stated at the wrapper that calls it: in `crypto` (HMAC and SHA-256, random bytes, base32, certificates
and TLS configurations) and in `json` (parsing JSON).
