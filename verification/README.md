# blam-tags

Tag files of the Halo editing kits: the layouts that describe them, the data they
hold, and the conversion of a tag from one engine generation to another. The library
is written in Verus; what each function does is stated in its contract and proved.

## The library (`src/`)

- `text`, `keys`, `guid`, `bytes`, `single`, `json`: texts, keys of fields, paths,
  identifiers, numbers as bytes, rescaling of single-precision reals, and the few
  things that are asked of a JSON text.
- `games`: the profiles, which of them convert to which, and the routes between them.
- `fields`, `layout`, `tag`, `file`, `definition`, `reads`: the values of fields, the
  tables of a layout, a tag as a tree of values, handles over definitions, and
  reading values by name.
- `data`, `blocks`, `chunks`, `reading`, `writing`, `roundtrip`, `byte_exact`: the data
  of a tag as its file holds it, the operations on blocks, and the chunk format.
  `roundtrip` proves that what is written is read back, `byte_exact` that what is read
  is written back byte for byte unless reading fills something in: an empty struct
  chunk of a struct whose fields have chunks is written back with those chunks, and
  grows.
- `decal_system`, `decorator_set`: two groups of tags, decoded.
- `convert`: the conversion. `catalog` holds the reviewed mappings, `schema` the names
  and annotations that schemas declare, `walk` the conversion of fields and structs,
  `analysis` and `routing` that of whole tags, `safety` and `references` what refuses
  one, `traces` that no value is lost without a word. `shapes`, `forgiving`, `carrying`,
  `animation`, `pixels`, `settling` and `turning` deal with resources.

A conversion stops for what only a file can answer: to have the dependencies of
the converted tag listed, and, between two hops of a route, to have the tag saved and
opened again. `routing` hands out each such step and goes on from what came of it;
`outputs` and `finishing` do the same for a draft that is about to be written, and
`opening` for a tag that is read.

What the engine's decoders say of curves, real numbers and resources stands outside the
library: `questions` says what a tag raises, and `answers` holds what came of it for a
conversion to read.

Real numbers are held by their bit patterns. A count in a report stays at its greatest
value once it reaches it.

## Around it

`tests/` runs the library on concrete values. `app/` reads definitions and tags from
disk, hands them to the library and performs the steps it asks for; how a tag file is
laid out is behind its `TagCodec`.
