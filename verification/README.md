# SoymilkCurry

A small server that shares broadcast tuners among HTTP clients, with an interface in the manner of
Mirakurun. A tuner is a shell command that writes a transport stream for a channel. Clients of the
same channel share the output of one command, and the command is stopped when the last of them
leaves.

## Layout

- `src/` is the library. All of it is verified with Verus.
  - `config`: the configuration and the rules it has to meet
  - `vars`: the command variables of a channel
  - `command`, `shell`, `text`: the command line of a tuner, and quoting for the shell
  - `state`: the model of the tuners and of what requests, clients and processes do to them
  - `tuner`: the tuners at work
  - `laws`: what holds of requests, clients and processes taken together
  - `pump`: what is done with the output of a command
  - `users`, `clock`: identifiers of clients, and the time that goes into them
  - `api`: what requests are answered
- `app/` is the server: files, processes, sockets and JSON.
- `tests/` holds the tests of the library.

## Running

    soymilk-curry [config.yml]

```yaml
listen: 0.0.0.0:40772
tuners:
  - name: terrestrial
    types: [GR]
    command: record --service <serviceId> <channel> <device>
channels:
  - name: example
    type: GR
    channel: "27"
    serviceId: 1024
    commandVars:
      device: /dev/dvb0
```

In a command, `<type>`, `<channel>` and the names of the channel's variables stand for values that
are quoted for the shell; `<serviceId>` stands for the number of the service. The placeholders are
filled in one after the other, so a value that itself holds a later placeholder is filled in too.
