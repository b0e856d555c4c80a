# prettyget

The core of PrettyGet, a desktop front end for `winget`, as a library verified with Verus.

`src/` holds everything that decides or computes, each public function with a contract:

- `text`, `ansi`, `decode`: characters and lines, removal of ANSI escape sequences, and
  decoding of winget's raw output (UTF-8, UTF-8 with BOM, UTF-16 in either byte order).
- `table`, `winget`: the language-independent parser of winget's console tables (columns
  are found by position, from the dashed separator line), the records it yields, the
  command lines of every winget operation and the messages built from failed calls.
- `stream`: the splitting of live output into committed and transient lines, proved not
  to depend on how the output was cut into chunks.
- `schedule`, `system`, `daemon`: `schtasks` and `sc.exe` command lines, the CSV listing
  of scheduled tasks, elevation checks, and the update daemon's scheduling decisions.
- `remote`, `iac`: the whitelist check and script of remote runs over PowerShell
  remoting, and the PowerShell / Ansible generators.
- `json`, `state_sync`: JSON values as plain data, reading `winget export` documents and
  writing the document `winget import` reads.

`app/` is the program around it: the Tauri commands, process spawning, files, the clock,
serde copies of the library's types, and the Windows service. Verus does not see it.

`tests/` runs the library on concrete inputs.
