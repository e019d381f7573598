# kurumi-containerd

A privileged container runtime for Linux and Android hosts: it boots a root
directory or an image with its own init, in namespaces of its own, and carries
it through reboots until it ends.

`src/` is the library. Everything that the runtime decides stands there, with
contracts that Verus proves:

- `text`, `path`, `env`, `order`: strings, Unix paths, environments and sorting;
- `plan`: the steps that the runtime takes on the host and in the container;
- `config`: the configuration, its validation, and the identity of a container;
- `helper`: signals, process status, descriptor passing and filter instructions;
- `container`: init systems, environments and confinement;
- `host`: networks, control groups, leases, archives, roots and terminals;
- `runtime`: boot, execution, recorded state, installation and the life of a
  container.

The library never touches the host. It is told what the host says, as plain
values, and answers with steps to take: a list of actions, or the next state of
a machine. Laws that relate several functions are public proof functions whose
names begin with `law_`.

`app/` is the program around it: the command line, the configuration file, and
the system calls that carry the steps out. `tests/` runs the library on
concrete values.

Some decisions differ between the two editions of the program, `gnosis` and
`kurumi-containerd`; the type `Edition` names them.
