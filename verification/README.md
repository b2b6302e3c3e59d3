# ping_monitor

A monitor for one's own internet link, for the terminal. It probes several
targets at once, learns what is normal for the link, and speaks up when the
connection as a whole changes: a strict majority of the targets decides, so a
single unreachable host is no outage. A matrix of resolvers and names tells a
broken resolver from a broken site, and the Insights panel names the probable
cause.

The rules are a library that Verus proves (`src/`). The program around it
(`app/`) does the input and output: sockets, resolvers, keyboard, screen, files,
notifications, sound.

## The library

Nothing in the library reads a clock, the environment or the network: times,
settings and replies are arguments, and what is to be played, shown, written or
traced is part of the result. Times are whole nanoseconds; thresholds, losses,
means and the score are exact fractions. They are rounded once, where they are
printed, to the nearest double-precision number, and printed as that is. The
moving averages of the detectors are kept to a 2^32th of a nanosecond.

| Module | What it holds |
|--------|---------------|
| `time`, `text`, `stats`, `exact`, `calendar` | instants and durations, text and numbers, rings and spikes, sums of fractions, dates |
| `state` | link states, strict-majority consensus, hysteresis, stepwise recovery |
| `detector` | paired moving averages with a latch and a baseline |
| `probe`, `dns` | one target, one extra probe, the matrix of lookups |
| `config`, `settings` | thresholds and their safe ranges, the settings from the environment |
| `app`, `pool` | the whole monitor; figures pooled over the targets |
| `round`, `intake` | a round of probes and its decision; the other reports |
| `insight` | probable causes, ranked |
| `gateway`, `wifi`, `net` | reading of route tables and signal reports, replies |
| `control` | messages, keys and ticks as decisions |
| `export` | the lines of the session files |
| `ui`, `panels` | what every panel shows, and where |
| `laws` | what holds of the monitor as a whole |

Each type has a view, and each function says over the views what it returns or
changes. The proof functions named `law_..` state what holds across functions,
for instance that a round that began before a reset changes nothing, or that the
connection goes down only where a majority of the targets is down.

Three facts are taken from outside without proof: what `String::push` does, that
lower case is a function of the text, and how `ratatui` splits an area where all
parts fit.

## Keys

`m` sound, `r` reset, `e` export, `t` traceroute, `q` or Esc quit.

## Settings

```
PM_TARGETS=cf:1.1.1.1:443,gg:8.8.8.8:443,q9:9.9.9.9:443
PM_EXTRAS=local:192.168.1.1:80,work:vpn.example.com:443
PM_DNS_NAMES=www.google.com,www.cloudflare.com,www.amazon.com
PM_TIMEOUT_MS=1500
PM_REMINDER_S=30
PM_PREALERT=1
PM_RECURSIVE_MODE=legacy
```

Values out of range are moved into it on startup.
