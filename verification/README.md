# s3_viewer

A read-only viewer for S3-compatible storage, with its request logic verified
by Verus.

- `src/` is the verified library: the listing of one bucket level (paging,
  truncation, the folder marker, display names, the listing order), the
  download headers (`Content-Disposition`, `Content-Type`) and the download
  pump's decisions, the settings (connection strings, validation, where the
  file is looked for), the configured buckets, and the answers to failed
  requests. Each public function states what it returns; the laws of the
  library are public proof functions next to the code they are about.
- `tests/` runs the library on concrete values.
- `app/` is the server around it: reading the settings file, the S3 client,
  the HTTP controllers and middlewares, and the MCP tools.
