//! The storage command: stores a value under a key and answers `STORED`.

use crate::cache::{set_effect, Cache};
use crate::frame::ResponseFrame;
use crate::parse::{set_fields, Parse, ParseError};
use vstd::prelude::*;

verus! {

/// Set `key` to hold `data`, with client flags and an expiration.
#[derive(Debug)]
pub struct SetCommand {
    pub key: String,
    pub flags: u32,
    pub cas: u64,
    pub expiration: Option<u32>,
    pub data: Vec<u8>,
}

impl SetCommand {
    /// A storage command for `key`, with version 0.
    pub fn new(key: String, flags: u32, expiration: Option<u32>, data: Vec<u8>) -> (s: SetCommand)
        ensures
            s.key == key,
            s.flags == flags,
            s.expiration == expiration,
            s.cas == 0,
            s.data == data,
    {
        SetCommand { key, flags, expiration, cas: 0, data }
    }

    /// Reads the key, the flags, the expiration and the data length from the
    /// command line; `data` is the already separated data line.
    pub fn parse_frame(parse: &mut Parse, data: Vec<u8>) -> (r: Result<SetCommand, ParseError>)
        ensures
            final(parse)@.0 == old(parse)@.0,
            match set_fields(old(parse)@.0, old(parse)@.1) {
                Ok((key, flags, expiration, p)) => {
                    &&& r matches Ok(s)
                    &&& s.key@ == key
                    &&& s.flags == flags
                    &&& s.expiration == Some(expiration)
                    &&& s.cas == 0
                    &&& s.data@ == data@
                    &&& final(parse)@.1 == p
                },
                Err(e) => r == Err::<SetCommand, ParseError>(e),
            },
    {
        let key = parse.next_string()?;
        let flags = parse.next_u32()?;
        let expiration = parse.next_u32()?;
        // The declared data length is read but not checked against the data line.
        let _ = parse.next_u32()?;
        Ok(SetCommand { key, flags, cas: 0, expiration: Some(expiration), data })
    }

    /// Stores the value in `cache` and appends the `STORED` response to `out`.
    pub fn apply(self, cache: &mut Cache, out: &mut Vec<u8>)
        requires
            old(cache).wf(),
        ensures
            final(cache).wf(),
            final(cache)@.wf(),
            forall|k: Seq<char>| k != self.key@ ==> #[trigger] final(cache)@.lookup(k) == old(cache)@.lookup(k),
            set_effect(
                old(cache)@,
                final(cache)@,
                self.key@,
                self.flags,
                self.expiration,
                self.data@,
                !old(cache)@.index.contains_key(self.key@),
            ),
            final(out)@ == old(out)@ + ResponseFrame::Stored.bytes(),
    {
        cache.set(self.key, self.flags, self.expiration, self.data);
        let response = ResponseFrame::Stored;
        response.encode(out);
    }
}

} // verus!
