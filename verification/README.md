# tg_anonymizer

Cleans Telegram chat exports (HTML) into anonymized Markdown.

- `src/` is the verified library:
  - `text.rs`: characters, trimming, decimal numbers;
  - `order.rs`: stable ordering by integer keys and its sorting law;
  - `natural.rs`: natural ordering of export files (`messages2.html` before `messages14.html`);
  - `dom.rs`: walks over HTML subtrees (parsed by `scraper`) and text extraction;
  - `entries.rs`: the sender updates and bodies of the messages of one page;
  - `patterns.rs`: the redaction patterns and the calls into `regex`;
  - `redact.rs`: the redaction rules applied to a message;
  - `participants.rs`: participant placeholders and the combined names pattern;
  - `pipeline.rs`: anonymization of a whole chat into output blocks;
  - `settings.rs`, `icon.rs`: options, window tabs, the window icon.
- `app/` is the desktop program: file dialogs, reading and writing files,
  progress reporting and the egui window.
- `tests/` runs the library on concrete exports and messages.
