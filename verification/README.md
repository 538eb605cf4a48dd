# virtio-nvgpu

A paravirtual NVIDIA GPU device. A guest runs NVIDIA's own user-mode driver; the ioctls that driver
issues travel over a virtqueue and are made on the host.

## Layout

- `src/` is the device: everything that is decided, stated as contracts and proved with Verus.
  - Bytes, text, paths and errors: `bytes`, `text`, `paths`, `error`, `errno`.
  - The driver's ABI, release by release: `ioctl`, `version`, `versions`, `abi`, `types`.
  - The wire format: `messages`, `response`, `files`, `virtio`, `transport`, `client`.
  - The shared window: `zone`, `shm`, `regions`, `mmap`; `cycle` and `history` for what runs of
    allocations and releases leave behind, and `accounting` for where its bytes are.
  - The backend: `step`, `nvidia`, `serve`, `forward`, `mapping`, `handle_table`, `watch`, `pump`,
    `guarded`, and `laws` for what holds over several steps.
  - The host's driver files: `host`, `manifest`, `categories`, `userspace`, `resolve`, `elf`,
    `staging`, and `manifest_laws` and `resolve_laws` for what holds of manifests as a whole.
- `app/` is the program around it: `serve` runs the device as a vhost-user backend, `userspace`
  stages driver files for a guest, `test-client` tries a backend out.
- `tests/` runs the library; where it needs a host driver, the test plays one.

## How a message is served

The backend never touches the host. `dispatch` takes a request and gives a `Step`: either the
response, or one `Action` to perform. Whoever runs the backend performs it and hands the `Event` to
`resume`, until the response is there. `accepts` says whether an event can be the outcome of what is
under way.

## What is proved

- No byte of the window is both free and held, or held twice, and none is lost whatever fails, as
  long as the window's own memory can be put back under a region that is given up.
- Mapping and unmapping, a mapping that fails, closing a handle and tearing down give back exactly
  what was taken, and no order of allocations and releases leaves a zone fragmented.
- Host descriptors and host addresses do not reach the guest where the backend put them.
- A request whose size differs from what the host's driver release expects is refused. One that the
  release's table does not list is refused too, unless the permissive policy is chosen.
- A closed handle stays closed until teardown.
- Messages, configuration space and file streams read back as what was written.
- A manifest that is cut off is refused, and manifests that are joined give the joined entries.
- No file is staged twice or that belongs to the host alone, every wanted file is either staged or
  reported missing, and both come in the order of the manifest.
