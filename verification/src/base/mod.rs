pub mod error;
pub mod format;
pub mod object;
pub mod resolver;
pub mod xref;
pub use error::{eof, Error, IoError};
pub use object::{
    bytes_eq, copy_bytes, entries_sv, objs_sv, spec_lookup, Data, Dict, Name, Number, ObjGen,
    ObjIndex, ObjNum, ObjRef, Object, Offset, SData, SObject, Stream, StreamData,
};
pub use xref::{
    default_record, spec_locate_in, xref_result, Header, Locator, Record, SXRef, XRef, XRefType,
};
pub use resolver::{no_resolver_error, Resolver};
