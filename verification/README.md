# WhaleScale core

The verified core of WhaleScale, a WireGuard mesh VPN: a coordinator hands
each node a network map of the peers its tenant's ACL policy lets it see, and
node agents apply those maps to a WireGuard interface, discover endpoints over
STUN, and fall back to a relay when hole punching fails.

`src/` is the library, verified with Verus: the wire codecs (STUN, relay
frames, MagicDNS), the ACL policy engine and the inbound packet filter it
compiles to, overlay address allocation, network-map assembly, WireGuard
configuration rendering, the agent's map-application state, the dashboard's
role rules, and the registries and statistics stores of the services.

`app/` is the program around it (`coordinator`, `relay`, `stun-server`,
`agent`): HTTP and WebSocket handling, the database, sockets, processes, the
C interface for mobile clients, and the floating-point rates of the dashboard.
