# classfile

A reader and a writer for JVM classfiles, verified with Verus.

Both work as streams: the reader hands out the parts of a classfile phase by
phase (header, constant pool, class metadata, interfaces, fields, methods,
attributes of the class), and the writer lays them out in the same order,
filling in each count once its list is done. Attributes are kept as raw bytes;
`attributes` decodes and encodes the contents of the standard ones (`Code`,
`StackMapTable`, annotations, `Module` and the rest).

Every value has a mathematical model (a view), and every decoder and encoder
is specified over it: decoding gives exactly what `spec_decode` says, and
encoding appends exactly `spec_encode`. On top of these the library proves:

- for every codec, decoding the encoding of a well-formed value gives the value
  back and takes exactly its bytes (`Codec::lemma_codec`);
- the codecs of the classfile level, stack map frames, annotation targets,
  element values, annotations and modules are canonical: encoding what decoding
  gave yields the bytes it took (`canonical`, `attributes::lemma_value_back`,
  `attributes::lemma_annotation_back`); a string literal cut short does not
  decode;
- a constant pool written entry by entry reads back as the same entries at the
  same slot indices (`pipe::lemma_pool_codec`);
- a whole classfile laid out by the writer reads back as itself
  (`pipe::lemma_classfile_codec`), and a classfile read and written again gives
  its own bytes back whenever the index space of its constant pool fills the
  pool's count (`pipe::lemma_classfile_back`, and the contract of `pipe::pipe`);
- the same two laws for the contents of a `Code` attribute
  (`attributes::lemma_code_codec`, `attributes::lemma_code_back`).

Decoding a range of local variables asks that its end fit in a `u16`;
`attributes::range_fits` and `attributes::target_fits` check that on bytes not
yet read, and `ArrayReader::remaining` hands out those bytes.

Layout:

- `src/` the verified library;
- `tests/` tests of the library on concrete classfiles;
- `app/` the command-line ends: a pipe from standard input to standard output,
  a printer, and the messages that describe errors.
