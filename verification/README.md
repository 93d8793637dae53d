# frequenz-microgrid

A high-level interface to a microgrid: it builds a graph of the electrical
components from what the microgrid API lists, and turns questions such as "what
does the grid supply?" or "what may the batteries take?" into formulas and
streams over the telemetry of the components.

The library under `src/` holds what the interface decides, with contracts that
Verus proves:

- `client`: which requests and telemetry streams are made, shared, retried and
  forgotten; the messages of the API.
- `backoff`: how long to wait before a retry.
- `component_graph`: the graph of components and the formulas it gives.
- `logical_meter`: expressions over metrics, and which telemetry they need.
- `microgrid`: pools of batteries, PV inverters and steam boilers; their
  inverter-battery groups, telemetry, bounds, capacity and state of charge, and
  what these read from the telemetry of the components.
- `component_pool_health_tracker`, `health`: which components are healthy.
- `power_manager`: what batteries are charged to, and proposals of power.
- `bounds`, `quantity`, `metric`, `single`, `time`, `wall_clock_timer`, `text`,
  `ids`, `error`: what the others are made of.

Numbers are kept by the bits of their single-precision form. Where they are added,
scaled, parsed or written, a caller hands in the function that does so.

The crate under `app/` connects the library to a server, to channels and to
timers, and does the floating-point arithmetic.
