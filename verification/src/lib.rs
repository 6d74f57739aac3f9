//! Resumable command execution for a signing device.
//!
//! A host sends commands in bounded chunks. Each chunk is wrapped in a
//! [`cursor::ByteCursor`] and consumed by the grammar engine in [`parser`],
//! which runs the grammar nodes of [`interface`] and can stop in the middle
//! of a field when a chunk runs out. The engine drives the command task
//! held in the single state cell of [`implementation`]. The decisions of
//! the dispatch loop live in [`dispatch`], the reasons a command can fail
//! in [`status`], and the fixed-capacity buffers in [`buffers`].
//! [`formats`] says which bytes stand for which values and proves that the
//! engine reads them back.
//!
//! Cryptography, the display and the transport stay with the caller, which
//! performs the actions this crate returns and hands their results back as
//! events.

pub mod buffers;
pub mod cursor;
pub mod dispatch;
pub mod formats;
pub mod implementation;
pub mod interface;
pub mod parser;
pub mod status;
