# ssteq25_discover

The decision logic of the SSTEQ25 Discover desktop app, verified with Verus:
it finds SSTEQ25 telescope fork mounts and AllSky cameras on the local
network.

- `src/` is the verified library:
  - `text`: decimal and dotted-quad notation, substring search, trimming.
  - `unique`: lists that hold each address once (merging discovered
    addresses, remembering connections), with the laws of that merge.
  - `subnet`: local IPv4 subnets from the interfaces and the host addresses
    swept in each, over the `ipnetwork` crate.
  - `scan`: the sweep's targets (known access-point addresses first, then
    discovered addresses, then subnet hosts) and its progress reports.
  - `json`: the `hostname` field of a device's reply and the stored list of
    previous connections, over `serde_json`.
  - `device`: the device record and the probe that tells a mount from an
    AllSky camera, as a step function the caller drives.
  - `mdns`: what an mDNS event adds to the discovered addresses and which new
    addresses to announce.
- `app/` is the Tauri shell around it: commands, mDNS browsing, HTTP and TCP
  probes, files and timers.
- `tests/` runs the library on concrete values.
