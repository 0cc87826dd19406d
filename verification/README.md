# idevice_desktop

The core of a desktop developer tool for iPhone and iPad, written in Verus:
every rule the tool applies is an executable function with a contract that
Verus proves.

- `src/` is the verified library. It decides how devices seen over USB and
  Bonjour merge into one list and how each is reached, which iOS generation a
  device belongs to and which developer services that implies, how IPA
  signatures and Mach-O binaries are checked, how the crash-report folder is
  walked and its reports named and ordered, which device paths may be changed,
  how transfer progress is reported, how debugserver's replies are read, and
  what every failure says. Laws that span several operations (for example,
  that removing a USB observation keeps a device's network route) are public
  proof functions next to the code they speak of.
- `tests/` runs the library on concrete values.
- `app/` is the desktop shell around it: the async command layer that talks to
  devices through `idevice`, watches usbmuxd and Bonjour, moves files, and
  emits events to the interface, plus the serializable copies of the library's
  types and the little floating-point work the library does not hold
  (coordinates, battery readings, upload percentages).
