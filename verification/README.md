# steam-tunnel

Tunnels local TCP and UDP ports to Steam friends over Steam's peer-to-peer
network: no port forwarding, no public address, no VPN.

The library under `src/` holds everything that decides something, and is
verified with Verus. The program under `app/` performs what the library asks
for: Steam, sockets, files, the clock, the web server and the tray icon.

| module      | what it holds                                                        |
|-------------|----------------------------------------------------------------------|
| `text`      | trimming, splitting, numerals and ordering of text                    |
| `lists`     | first match, what is kept, stable sorting                             |
| `protocol`  | frames and handshake messages, byte by byte                           |
| `auth`      | the pre-shared key challenge (BLAKE3) and its random nonce            |
| `handshake` | what a greeting or an answer holds, and what the host makes of it     |
| `stream`    | one TCP connection or UDP flow                                        |
| `tunnel`    | one Steam connection with all its streams                             |
| `turn`      | a tunnel's turn, step by step                                         |
| `laws`      | what holds of a tunnel: who gets in, and what arrives                 |
| `order`     | what is sent reaches Steam in order                                   |
| `run`       | a whole turn: what it drops, what it tells, what it reads             |
| `delivery`  | what arrives for a stream reaches its local socket in order           |
| `half_close` | one direction ends before the other                                  |
| `engine`    | shares, mappings, tunnels and invitations                             |
| `state`     | configuration, commands, and the snapshot for the web page            |
| `report`    | what the web page is shown                                            |
| `json`, `http` | the web interface: guards, commands and answers                    |
| `detect`    | local programs that listen on ports                                   |
| `log`       | the wording of the log                                                |

The contracts speak of models: every type with state has a view, a plain value
without buffers or handles, and every method states which value it leaves.
Functions named `law_..` state what holds across several of them.
