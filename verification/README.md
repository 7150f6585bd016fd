# Nexo

Nexo is a self-hosted tunnel platform. Devices behind NAT run an agent, which keeps two mutually
authenticated connections to the server: one for control messages and one that carries the streams
of visitors. The server gives each service a public entry, serves public domains through an edge
process with certificates, and separates the workspaces of its users.

The rules of the platform are a Verus library. Every function of it states what it returns or
changes, and Verus proves it.

## Layout

- `src/` is the library. It reads no file and opens no connection.
  - Text, numbers, addresses and documents: `text`, `number`, `order`, `ip`, `network`, `url`,
    `json`, `digest`, `der`, `x509`.
  - Accounts: `error`, `auth`, `accounts`, `security`.
  - Devices: `enrollment_token`, `enrollment`, `identity`, `protocol`, `agent`.
  - Services: `tunnel`, `tunnels`, `services`, `transport`, `gateway`, `schema`.
  - Public domains: `domains`, `domain_access`, `domain_runtime`, `edge_config`, `edge_apply`,
    `caddy`, `supervisor`.
  - Mesh: `headscale`, `headscale_adapter`, `device_networks`, `policy`, `oidc`.
- `tests/` runs the library on concrete values.
- `app/` is the program around it: the command line, the HTTP interface, the database, TLS, the
  multiplexed connections and the processes that are supervised.

## How it is stated

Rows of the database, messages and settings are plain values with views as mathematics. Where one
request changes accounts, invitations with their devices and identities, or the services of a
device, a function takes the rows to the rows; the program around it loads, calls and stores. That
what belongs to a deleted row goes with it is left to the database. Loops that wait for the outside
world are step functions from a state and an event to the next state and an action.

Calls into other crates stand behind small functions whose contracts are taken on trust. Each says
which function it calls and what is claimed of it. Results that no short formula describes, such as
digests, are named and otherwise left open.

What holds across functions is stated in public proof functions beside the code that it is about,
for example that a recovery code works once, that verified domains of two workspaces never overlap,
or that a failed change leaves the configuration in force as it was.
