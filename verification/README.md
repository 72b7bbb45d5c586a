# jumakl_extractor

Extracts product data (stock and, later, prices) from supplier feeds,
exports it as semicolon-separated mass data files and sends a report of
every run by e-mail.

The project is written in Verus. Everything that decides what is extracted,
exported and reported lives in the library under `src/`, each function with
a contract that Verus proves:

- `text`, `decimal`: trimming, integer and decimal literals, replacement and
  HTML escaping, stated over `Seq<char>`.
- `cli`, `config`, `paths`: the run's kinds, config files and folders, and the
  validation of a config.
- `sources`: field coercion and the XML feed reader (tokenized by
  `quick_xml`), both as a push parser and as a pull iterator of records.
- `pipeline`: one run over the sources of a kind; every failure of a source
  ends up in its report.
- `output`: export rows and their CSV lines.
- `report`: the subject and HTML body of the report e-mail.
- `logging`: log level, settings and which old log files are removed.

The program around the library is in `app/`: argument parsing, reading the
environment and the config files, HTTP requests, writing files, logging and
sending the e-mail.
