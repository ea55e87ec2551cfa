# pnet_datalink

Sending and receiving data link layer packets through the WinPcap driver.

`src/` is a verified library. It holds what is decided and computed around the
driver:

- `channel`: the order of the calls that set a channel up, and what is released
  when one of them fails;
- `sender`: a batch of packets, built and sent one after the other;
- `receiver` and `bpf`: the records of a capture buffer, and the order in which
  their packets are handed out;
- `query`, `interfaces`, `names`, `net`, `text`: the list of the network
  interfaces that the driver supports;
- `config`: the sizes of the buffers.

The machines in `channel`, `sender`, `receiver` and `query` make no call of the
driver or the operating system. Each is told what happened and says what to do
next. `app/` performs these actions.
