# fileport

The core of a file-transfer client (SFTP, SCP, rsync over SSH, FTPS,
WebDAV, SMB, S3/Azure/GCS object stores), written in Verus.

- `src/` is the verified library: remote paths, the `ls`/FTP `LIST` and
  WebDAV `PROPFIND` readers, shell quoting and remote commands, the SCP
  protocol lines, rsync progress parsing, error mapping for every protocol,
  checksummed transfer bookkeeping (BLAKE3), the connection registry, the
  running-transfer table and the saved profiles. Each public function has a
  contract; the `law_*` proof functions state what holds across calls
  (a saved profile is found again, quoting round-trips through the shell,
  the local connection stays open, a listing never contains its own
  directory, and so on).
- `app/` is the application around it: the backends that talk to the
  network and the file system, and the commands a UI calls.
- `tests/` runs the library on concrete values.
