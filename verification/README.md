# mkwii_recorder

Track-data decoding for a Mario Kart Wii time-trial recorder, written in Verus.

- `src/binary.rs`: big-endian readers over byte slices.
- `src/text.rs`: decimal rendering of unsigned integers.
- `src/kcl.rs`: KCL collision files: header, prisms and vector sections, surface classes,
  grouping by class and OBJ/MTL text output.
- `src/gx.rs`: GX display lists: decoding the vertex buffers of a mesh into primitives and
  building the triangle list that draws them.
- `src/obj.rs`: reading Wavefront OBJ text into vertex records, faces and groups.
- `src/readback.rs`: the OBJ text written for a collision model reads back as written.
- `app/`: the viewer program (Bevy and BRRES loading) and the floating-point steps
  (vector arithmetic, float formatting and parsing), which the verified library leaves out.
