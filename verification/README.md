# Chunky

Converts 3D models (OBJ, glTF/GLB, binary STL) into Minecraft structures: Sponge
schematics (`.schem`, gzip-compressed NBT) and region files (`.mca`, zlib-compressed NBT
in the 1.18+ section format).

## Layout

- `src/` — the library, verified with Verus:
  - `geom`, `voxel` — integer coordinates and the sparse chunked voxel grid;
  - `voxelize` — merging rasterized triangle cells into a grid, and the row-scan solid fill;
  - `palette` — the block table and the choice of the closest block;
  - `optimize` — the noise filter and face visibility;
  - `nbt`, `pack`, `compress` — NBT encoding, bit packing, deflate streams;
  - `export`, `region` — schematic documents, chunk documents and region files;
  - `import` — the binary STL layout and texel lookup;
  - `session` — what the interface decides about background jobs and shows about a grid.
- `app/` — the command-line program: model loading, floating-point rasterization and
  colour distances, the background worker, and file output.
- `tests/` — tests of the library.

## Usage

```
chunky model.obj --resolution 64 --mode solid --filter wool --schem out.schem --mca world/region
```
