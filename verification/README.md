# eh2telegraph

A bot that fetches image sets from e-hentai, exhentai and Pixiv and publishes them as Telegraph
articles. The images stay where they are; the articles embed them through an image proxy.

The logic is a library whose behaviour is stated in contracts and proved with Verus. What talks to the
outside, that is Telegram, the sites, Telegraph and the key-value store, is a thin program around it.

## Layout

- `src/collector/`: reading paths and answers of the sites, one module for each.
- `src/stream.rs`: streams of images, and the buffer that loads several at once.
- `src/telegraph.rs`, `src/publish.rs`: the content of articles, cutting an album into pages, the
  footers, and the order in which linked pages are created.
- `src/sync.rs`: what is looked up, fetched, published and remembered for one album or one batch.
- `src/storage/`: which store is used, and what its answers mean.
- `src/batch.rs`, `src/sessions.rs`: the galleries that a user collects before publishing them.
- `src/handler.rs`, `src/message.rs`, `src/config.rs`: what is done about a message, and what is
  written back.
- `src/text.rs`, `src/unique.rs`, `src/error.rs`, `src/types.rs`: what the other modules share.
- `src/outside.rs`: the calls into other crates, each with the contract that the proofs rely on.
- `tests/`: the library on concrete values.
- `app/`: the program.

## Dependencies

`serde_yaml` reads the configuration of the program. `takecell`, which `teloxide` brings in, is held at
the last version that builds with the compiler that Verus uses.

## Not available

The program has no image search and no collector for nhentai. It says so when it starts. A photo is
answered as a search that failed, and a link to nhentai is recognized and answered with an error.

## Configuration

`config.yaml`, or the file given by `-c`, has these parts:

- `base`: `bot_token`, `admins`, `polling_timeout_secs`, `restart_delay_secs`, and `telegraph` with
  `tokens`, `author_name` and `author_url`.
- `image_proxy`: `base_url`.
- `exhentai`: `ipb_pass_hash`, `ipb_member_id` and `igneous`.
- `pixiv` (optional): `php_sessid` and `proxy_fallback`.
- `worker_kv`: `mode` (`cloudflare`, `memory` or `auto`), `endpoint` and `token`.
- `proxy` (optional): `endpoint` and `authorization`.
- `http` (optional): `ipv6_prefix` and `cf_addresses`.
