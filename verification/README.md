# serve

A small static HTTP/HTTPS file server. `serve <path> [port] [--http|--https] [-i]`
hosts a directory: `index.html` is served for a directory unless `-i` is given,
otherwise the directory is listed; text files are shown in a preview page,
other files are sent as they are, and `?download=1` sends a file as an
attachment. The default port is 8000 and the default protocol HTTP; HTTPS uses
a self-signed certificate kept in `~/.serve/`.

Layout:

- `src/` is the verified library (Verus): command-line parsing (`cli`),
  request decisions and path confinement (`request`, `paths`), the preview and
  listing pages (`preview`, `listing`, `escape`, `sort`), percent-encoding
  (`encoding`), and the TLS credential files (`credentials`).
- `app/` is the program around it: the Tokio/Hyper server loops, file-system
  access, TLS setup and the coloured log.
- `tests/` exercises the library on concrete values.
