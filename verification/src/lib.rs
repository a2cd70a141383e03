//! Small building blocks for byte-oriented programs: exact fixed-arity
//! splitting, the decision logic of a writer that hands its output to a
//! background worker, and a few helpers around them.

pub mod bytes;
pub mod exact;
pub mod pieces;
pub mod prefix;
pub mod relay;
pub mod search;
pub mod split;
pub mod text;

pub use bytes::{bstr_fmt, strip_prefix};
pub use exact::{array_init_from_iter, array_init_from_iter_, array_init_from_rev_iter, fill_from};
pub use prefix::PrefixWriter;
pub use relay::{Action, BufferedWriter, Event, Stage, Worker};
pub use search::IteratorExt;
pub use split::{rsplitn_exact_by, splitn_exact_by, SliceExt};
pub use text::{text_of, FromBytes};
