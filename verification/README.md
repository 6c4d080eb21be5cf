# flexim

The data layer of Flexim, a viewer for images, tensors and data frames
gathered into named bags, written in Verus with its behaviour stated as
contracts and proved.

- `src/` is the verified library:
  - `storage`: bags, their generation counters, reading a datum back by
    reference, the storage of bags and how bags and data are grouped for
    display;
  - `data_type`: the stored data and references to them;
  - `layout`: panes, layouts, whether a layout applies to a bag, merging
    loaded layouts;
  - `table`, `filter`, `view`: table state, the filtered-frame cache, row
    filters and the column configuration of data-frame views;
  - `visualize`, `shape`: what is drawn, and how shape columns are read;
  - `connect`: assembling and decoding uploads;
  - `text`, `grouping`: string order and grouping by name.
- `tests/` runs the library on concrete values.
- `app/` is the command-line program around it: file and network
  handling, serialisation, and the parts that compute on floating-point
  values.
