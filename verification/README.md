# cdp-unix

A browser controller that talks to Chrome over a pipe, and to its clients over an
abstract Unix socket. Nothing goes through the network, and no socket file is made.

A daemon keeps one headless Chrome running and a pool of warm pages, each in a browser
context of its own; the pool is filled again when a page is asked for and none is left.
Clients connect, take a page, send DevTools commands to it, and give it back; the page
and its context are then closed.

    Chrome  <- pipe, zero-terminated JSON ->  daemon  <- socket, framed JSON ->  client

## Layout

`src/` is the library, verified with Verus. It does no input or output.

| module     | what it holds                                                            |
|------------|--------------------------------------------------------------------------|
| `protocol` | the messages between client and daemon, and the frames that carry them   |
| `browser`  | Chrome's messages, the records on the pipe, the command line of Chrome   |
| `pool`     | the pool of warm pages, and the calls that create, attach and close one  |
| `jobs`     | dealings with Chrome that take several calls                             |
| `daemon`   | the router: from an event to a new state and what is to be done          |
| `routing`  | what holds of the router whatever happens                                |
| `pages`    | what holds of the pages that it keeps and hands out                      |
| `sessions` | what holds of the sessions in which clients have pages                   |
| `client`   | the client's requests, and what it makes of the answers                  |
| `json`     | JSON values of `serde_json`, and what is trusted of that crate           |
| `sums`     | sums over maps                                                           |
| `text`     | putting texts together                                                   |
| `socket`   | the name of the socket                                                   |

`app/` is the program around it: processes, pipes, sockets, timers and the command line.

## Use

    cdp-unix daemon --warmup 20
    cdp-unix status
    cdp-unix warmup --count 10 --url https://example.com
    cdp-unix navigate https://example.com
    cdp-unix exec --method Runtime.evaluate --params '{"expression": "1 + 1"}'
    cdp-unix bench --count 100

Linux only. Chrome is looked up as `google-chrome-stable` unless `--chrome-path` names it.
