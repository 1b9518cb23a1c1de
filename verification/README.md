# relay_control

The scheduling logic of an ESP32 controller that switches four relays and a
status LED, each function with a proved contract.

- `src/schedule.rs`: month and weekday selections as bit masks (and the older
  selections with one flag per month or weekday).
- `src/clock.rs`: times of day, daily windows (also across midnight), and the
  wall clock of Europe/Amsterdam at a UNIX time, read through chrono and
  chrono-tz.
- `src/relay.rs`: outputs, their switching conditions and stored settings, and
  the decision whether an output's pin is driven high.
- `src/message.rs`: the bytes carried by a received MQTT message's text, and the
  text of a sensor reading.
- `src/session.rs`: the steps of the MQTT loop (subscribe, then publish readings).
- `src/wifi.rs`: the steps of the loop that keeps the Wi-Fi connection up.
- `app/`: the firmware around the library: Wi-Fi, MQTT, flash storage,
  GPIO and ADC, threads, and the postcard encoding of the settings.
