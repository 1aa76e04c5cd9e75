# exruster

Verified core of an EXR image viewer, written in Verus.

`src/` is the library. Its functions carry contracts that Verus proves,
except a few small wrappers around std and dashmap calls (`String::push`,
`str::to_lowercase`, and the `DashMap` operations used for channel
grouping), whose contracts are trusted:

- `processing/channel_classification` — grouping of channel names by a
  configurable dictionary of prefixes and `*` patterns.
- `processing/layer_export`, `processing/pipeline`, `processing/tone_mapping`
  — which layers an export request selects, the file names they get, the
  MIP level a thumbnail reads, and the tone-mapping mode chosen by number.
- `io/exr_metadata` — file metadata grouped and rendered as text lines and
  table rows.
- `io/image_cache`, `io/lazy_exr_loader`, `io/full_exr_cache`,
  `io/metadata_traits` — layers gathered from header channels, the layer
  shown first, the colour channels used for display, layer look-up.
- `io/folder_tree` — the folder tree as a walk driven by directory
  listings, proved to produce the depth-first rows of the tree.
- `gpu_metrics`, `gpu_scheduler`, `gpu_mip`, `cuda_context` — GPU
  bookkeeping and MIP-chain planning.
- `utils` — splitting a full channel name into layer and short name.
- `text`, `sorting` — character-level string operations and a stable sort
  used throughout.

`app/` is the command-line front end: file-system and EXR header access,
floating-point tone curves and scoring, and the copies of library types that
carry `serde` and `bytemuck` derives. `tests/` exercises the library.
