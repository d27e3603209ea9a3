//! The retrieval command: one or more keys, answered with a `VALUE` line per hit.

use crate::cache::{Cache, CacheView};
use crate::frame::{end_line, push_end, value_bytes, ResponseFrame};
use crate::parse::{get_keys, keys_from, lemma_next_token_advances, Parse, ParseError};
use vstd::prelude::*;

verus! {

/// The `VALUE` response for `key` if the cache holds it, else nothing.
pub open spec fn hit_bytes(key: Seq<char>, c: CacheView) -> Seq<u8> {
    match c.lookup(key) {
        Some(rec) => value_bytes(key, rec.flags, rec.data.len(), None, rec.data),
        None => Seq::empty(),
    }
}

/// The `VALUE` responses for the keys that the cache holds, in request order.
pub open spec fn hits_bytes(keys: Seq<Seq<char>>, c: CacheView) -> Seq<u8>
    decreases keys.len(),
{
    if keys.len() == 0 {
        Seq::empty()
    } else {
        hits_bytes(keys.drop_last(), c) + hit_bytes(keys.last(), c)
    }
}

/// The response to a retrieval of `keys`. A single key gives its value and the
/// closing line on a hit, and nothing at all on a miss; any other number of
/// keys gives the values of the hits and then the closing line.
pub open spec fn get_response(keys: Seq<Seq<char>>, c: CacheView) -> Seq<u8> {
    if keys.len() == 1 {
        match c.lookup(keys[0]) {
            Some(_) => hit_bytes(keys[0], c) + end_line(),
            None => Seq::empty(),
        }
    } else {
        hits_bytes(keys, c) + end_line()
    }
}

/// Get the values of one or more keys.
#[derive(Debug)]
pub struct Get {
    keys: Vec<String>,
}

impl View for Get {
    /// The requested keys, in order.
    type V = Seq<Seq<char>>;

    closed spec fn view(&self) -> Seq<Seq<char>> {
        self.keys@.map_values(|k: String| k@)
    }
}

impl Get {
    /// A retrieval of `keys`.
    pub fn new(keys: Vec<String>) -> (g: Get)
        ensures
            g@ == keys@.map_values(|k: String| k@),
    {
        Get { keys }
    }

    /// The requested keys, in order.
    pub fn keys(&self) -> (r: &Vec<String>)
        ensures
            r@.map_values(|k: String| k@) == self@,
    {
        &self.keys
    }

    /// Reads one key, then more keys until the line is consumed.
    pub fn parse_frame(parse: &mut Parse) -> (r: Result<Get, ParseError>)
        ensures
            final(parse)@.0 == old(parse)@.0,
            match get_keys(old(parse)@.0, old(parse)@.1) {
                Ok(keys) => {
                    &&& r matches Ok(g)
                    &&& g@ == keys
                    &&& final(parse)@.1 > final(parse)@.0.len()
                },
                Err(e) => r == Err::<Get, ParseError>(e),
            },
    {
        let ghost s = parse@.0;
        let ghost pos0 = parse@.1;
        let first = parse.next_string()?;
        let mut keys: Vec<String> = Vec::new();
        keys.push(first);
        assert(keys@.map_values(|k: String| k@) =~= seq![first@]);
        while !parse.complete()
            invariant
                parse@.0 == s,
                s == old(parse)@.0,
                pos0 == old(parse)@.1,
                get_keys(s, pos0) == match keys_from(s, parse@.1) {
                    Ok(ks) => Ok(keys@.map_values(|k: String| k@) + ks),
                    Err(e) => Err(e),
                },
            decreases s.len() + 1 - parse@.1,
        {
            let ghost before = keys@.map_values(|k: String| k@);
            let ghost cur = parse@.1;
            proof {
                lemma_next_token_advances(s, cur);
            }
            let key = match parse.next_string() {
                Ok(key) => key,
                Err(e) => {
                    assert(keys_from(s, cur) == Err::<Seq<Seq<char>>, ParseError>(e));
                    return Err(e);
                },
            };
            keys.push(key);
            assert(keys@.map_values(|k: String| k@) =~= before.push(key@));
            proof {
                let rest = keys_from(s, parse@.1);
                if let Ok(ks) = rest {
                    assert(before + (seq![key@] + ks) =~= before.push(key@) + ks);
                }
            }
        }
        proof {
            assert(keys@.map_values(|k: String| k@) + Seq::<Seq<char>>::empty() =~= keys@.map_values(|k: String| k@));
        }
        Ok(Get { keys })
    }

    /// Looks each key up and appends the response to `out`.
    pub fn apply(self, cache: &Cache, out: &mut Vec<u8>)
        requires
            cache.wf(),
        ensures
            final(out)@ == old(out)@ + get_response(self@, cache@),
    {
        let ghost start = out@;
        let ghost keys = self@;
        if self.keys.len() == 1 {
            let key = &self.keys[0];
            if let Some(item) = cache.get(key) {
                let frame = ResponseFrame::Value {
                    key: key.clone(),
                    flags: item.flags,
                    data_length: item.data.len(),
                    cas: None,
                    data: item.data,
                };
                frame.encode(out);
                push_end(out);
                assert(out@ =~= start + get_response(keys, cache@));
            } else {
                assert(out@ =~= start + get_response(keys, cache@));
            }
            return;
        }
        let mut i: usize = 0;
        while i < self.keys.len()
            invariant
                i <= self.keys@.len(),
                keys == self.keys@.map_values(|k: String| k@),
                cache.wf(),
                out@ == start + hits_bytes(keys.subrange(0, i as int), cache@),
            decreases self.keys@.len() - i,
        {
            let key = &self.keys[i];
            let ghost prev = out@;
            if let Some(item) = cache.get(key) {
                let frame = ResponseFrame::Value {
                    key: key.clone(),
                    flags: item.flags,
                    data_length: item.data.len(),
                    cas: None,
                    data: item.data,
                };
                frame.encode(out);
            }
            assert(out@ =~= prev + hit_bytes(keys[i as int], cache@));
            assert(keys.subrange(0, i + 1).drop_last() =~= keys.subrange(0, i as int));
            i += 1;
            assert(out@ =~= start + hits_bytes(keys.subrange(0, i as int), cache@));
        }
        assert(keys.subrange(0, i as int) =~= keys);
        push_end(out);
        assert(out@ =~= start + get_response(keys, cache@));
    }
}

} // verus!
