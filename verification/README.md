# spnhub

`spnhub` is the hub of an SPN (Service Provider Network): clients connect to it over QUIC as
providers or as consumers of services, and it forwards the streams of a consumer to the provider
of its service.

`src/` is the library with everything that the hub decides, written in Verus. Each function has a
contract that says what it returns; functions named `law_..` state what holds of several of them
together.

| Module | What it decides |
| --- | --- |
| `config`, `service_map` | where hubs and services stand in the inventory; which service a client belongs to |
| `session` | who a client is, what its session knows, how its end is described |
| `providers`, `consumers`, `connection_table` | who is connected, which provider is active, who takes over |
| `search`, `proxy` | how a consumer finds a provider, and what happens while streams are forwarded |
| `control` | what control datagrams mean, and how often a consumer may ask for a start |
| `idle`, `sweep` | how long a provider has been idle, which ones are stopped, who is told |
| `ondemand`, `microservice` | when and how a provider is started and stopped: Docker, Nomad, Kubernetes |
| `reconcile`, `shutdown` | which hubs run under a configuration, and how one ends |
| `text`, `name_map`, `clock` | what the others are made of |

`app/` is the program around it: sockets, certificates, HTTP calls, files and the log.

The library calls `chrono`, `kube`, `quinn`, `reqwest` and parts of the standard library through
functions whose contracts are stated and not proved. Their doc comments say what is claimed.

## Configuration

- `SPNHUB_INVENTORY_URL`: URL of the inventory server (supports `http(s)://` or `file://`).
- `RUST_LOG`: log level (e.g., `info`, `debug`).
