# clefview

A viewer for Serilog compact-JSON (CLEF) log files, with its core written in
Verus and proved against its contracts.

- `src/` is the verified library:
  - `text.rs`: character helpers, decimal text, trimming;
  - `level.rs`: levels, their labels and colours, level counts;
  - `json.rs`: the JSON value model, its display form, decoding with serde_json;
  - `template.rs`: message-template rendering and segments;
  - `record.rs`: CLEF records, line splitting, template summaries;
  - `time.rs`: instants, the local clock and the date-range filter (chrono);
  - `filter.rs`: property filters evaluated by evalexpr;
  - `app.rs`: the viewer's state and every decision it takes.
- `app/` is the egui program around it: the window, file reading and the
  background loader.
- `tests/` exercises the library on concrete inputs.

Calls into chrono, evalexpr, serde_json and std that Verus cannot read are
made by small trusted functions, each with a doc comment saying what its
contract assumes of the outside code.
