# mornlea_storage

Versioned save records for a block world, written in Verus: every codec
states in its contract the exact bytes it writes, the inputs it refuses and
what it reads back, and Verus proves the code against those contracts.

## Save families

- `world_metadata`: the world metadata record (`MCGM`), versions 1 to 6.
- `passive`, `hostile`: the mob aggregates, fixed-stride records in ascending
  ID order.
- `player`: the player record (`MCPL`), schemas 1 to 9 as tail appends.
- `companion`, `companion_layout`, `companion_parse`: the companion aggregate,
  v5 written, v1 to v4 read and migrated.
- `chunk`, `chunk_layout`, `chunk_parse`, `chunk_rules`, `chunk_migrate`,
  `section`: the chunk envelope (`CHNK`) around a zstd frame of the `MCGC`
  logical payload, with schemas 1 to 9 migrated to the current one.

## Laws

Each family has its round trip and exactness laws as public proof functions:
`lemma_round_trip`, `lemma_readable_is_canonical` and `lemma_record_round_trip`
in the family modules, and `chunk_laws`, `companion_laws`, `companion_order`
and `player_laws` for the longer proofs.

## Trusted boundary

`zstd_frame` holds the only calls into the `zstd` crate, each behind a
wrapper whose contract is assumed: what a frame is for a given input and
settings, what one-pass decompression gives, and the header flags a frame
carries. `error` and `text` hold the few standard-library calls that format
messages and decode UTF-8. `app/` converts the `f32` fields the library keeps
as bit patterns.
