# togglite

A Toggl Track client for the Windows system tray, split in two:

- `src/` is the library, verified with Verus: dates and RFC 3339 times, base64, the
  settings record and its DPAPI-sealed token, the UI languages, the API's paths, bodies
  and error messages, the application state and how each worker reply changes it, the
  entry editor's time fields, the views of the main, history and editor pages, the tray
  texts, the popup's layout and input handling, and the demo data.
- `app/` is the Windows program around it: windows, drawing, the tray icon, the worker
  threads, HTTP (ureq over native-tls), the settings file and DPAPI.

Module map of the library:

| module     | contents |
|------------|----------|
| `calendar` | proleptic Gregorian calendar: day numbers and dates |
| `text`     | white space, decimal digits and formatting |
| `util`     | base64, RFC 3339, local time, `H:MM:SS`, truncation, the clock |
| `i18n`     | languages, tags and the string tables |
| `api`      | time entries, projects and everything sent to or read from the API |
| `config`   | what the settings file stores and loads |
| `state`    | the application state, the quick-restart list and the worker replies |
| `edit`     | the editor's start and stop fields |
| `view`     | main page, history page, editor page and tray texts |
| `popup`    | layout at a DPI, hit-testing, clicks, keys, scrolling, placement |
| `demo`     | sample data |
| `ui`       | pages, actions, colours and the view types |
