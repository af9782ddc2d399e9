# mseedio

Reading and writing of miniSEED 3 records, verified with Verus.

- `src/header.rs`: the record header, its fixed little-endian layout, data
  encodings, flags, and record times (day of year, calendar dates, text form).
- `src/data.rs`: the record body, readers for the fixed header fields, the
  little-endian sample payloads, and the CRC-32C of a record.
- `src/steim_spec.rs`: what Steim-1 and Steim-2 decoding and encoding compute, as
  spec functions over bytes, words and samples.
- `src/steim_decode.rs`, `src/steim_encode.rs`: the codecs, proved against those
  spec functions.
- `src/steim_laws.rs`: decoding an encoding gives the samples back; Steim-2
  refuses exactly the samples whose differences need more than 30 bits.
- `src/record.rs`: records and record builders with the Steim codecs.
- `src/record_io.rs`: a record as bytes ("MS", header, payload), its CRC, reading
  one record and a volume of records back, and the read-back laws.
- `src/schema.rs`: the float-free parts of the FDSN extra-header schema.
- `app/`: serde forms, floating point views, `Display` and `chrono` conversions.
