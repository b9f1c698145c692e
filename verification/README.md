# EVM address extractor

Collects the addresses that send or receive transactions on an EVM chain between two times,
and writes them, part by part, to compressed CSV files.

The library under `src/` holds the logic, verified with Verus: which endpoints a chain has and
in what order they are tried, what an answer means, which blocks lie between two times, how
the blocks are cut into parts and batches, which addresses are kept, what a file holds, and
where a broken-off run goes on. The program under `app/` is the network, the file system, the
clock and the screen around it.

| module       | what it is about                                              |
|--------------|---------------------------------------------------------------|
| `options`    | the environment and the command line                          |
| `endpoints`  | the endpoints of each chain                                   |
| `attempts`   | the order of attempts, and the pauses between them            |
| `json`       | JSON values, and their passage to and from `serde_json`       |
| `rpc`        | one JSON-RPC request                                          |
| `request`    | what comes of a whole request                                 |
| `batch`      | many blocks in one request, and the addresses in them         |
| `search`     | the first block at or after a time                            |
| `range`      | the blocks between two times                                  |
| `plan`       | parts, batches, and where a run begins                        |
| `part`       | the work on one part                                          |
| `output`     | part files                                                    |
| `checkpoint` | the checkpoint file                                           |
| `number`     | numbers as text                                               |
| `text`       | small operations on text                                      |
