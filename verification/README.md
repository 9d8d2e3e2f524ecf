# LinuxPods

AirPods battery and control for GNOME: battery levels over the Apple Accessory
Protocol (AAP) while an L2CAP link is up, and from BLE proximity-pairing
advertisements (decrypted with the device's own key) otherwise.

- `src/` is the library, verified with Verus: the AAP packet parsers and
  builders (`aap`), the BLE advertisement parser, the AES-based identification
  of a device behind its rotating address and the scanner's filtering (`ble`),
  the BlueZ-side decisions (`bluez`), the key store (`keystore`), the state
  coordinator's state and decisions (`podstate`), the tray's model
  (`indicator`), every text and choice of the window (`ui`) and a stand-in
  coordinator for demos (`mock`). `strmap` and `text` are the string-keyed map
  and the string building they share.
- `app/` is the program around it: the GTK window, the tray host, the D-Bus
  and L2CAP I/O, the keys file and the async tasks that feed the library.
- `tests/` exercise the library on concrete values.
