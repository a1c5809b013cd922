//! The lookup table: an ordered sequence of strings built once per
//! document, then addressed by 16-bit signed indices read from the wire.
//! Every element name and many attribute values are indices into this one
//! table rather than inline strings.

use crate::celeste_map::prim;
use crate::celeste_map::string;
use crate::celeste_map::string::SimpleString;
use vstd::prelude::*;

verus! {

/// Failure of building the table: the entry count could not be read, or
/// one of the strings failed to decode.
#[derive(Debug, Clone, Copy, PartialEq, Eq, Structural)]
pub enum ReadError {
    Length,
    String(string::ReadError),
}

/// Failure of resolving a table reference: the index could not be read, or
/// it lies outside the table (the payload carries the index and the table
/// length).
#[derive(Debug, Clone, Copy, PartialEq, Eq, Structural)]
pub enum ReadIndexGetError {
    ReadIndex,
    OutOfBounds(i16, usize),
}

/// The byte sequences of a sequence of strings.
pub open spec fn string_views(v: Seq<SimpleString>) -> Seq<Seq<u8>> {
    Seq::new(v.len(), |i: int| v[i]@)
}

/// Prefixes the items of a successful tail parse with already-parsed items.
pub open spec fn sp_prepend_items(
    items: Seq<Seq<u8>>,
    r: Result<(Seq<Seq<u8>>, Seq<u8>), ReadError>,
) -> Result<(Seq<Seq<u8>>, Seq<u8>), ReadError> {
    match r {
        Ok((more, rest)) => Ok((items + more, rest)),
        Err(e) => Err(e),
    }
}

/// `n` strings read in order from the front of the input.
pub open spec fn sp_read_lookup_items(s: Seq<u8>, n: nat) -> Result<
    (Seq<Seq<u8>>, Seq<u8>),
    ReadError,
>
    decreases n,
{
    if n == 0 {
        Ok((Seq::empty(), s))
    } else {
        match string::sp_read_string(s) {
            Err(e) => Err(ReadError::String(e)),
            Ok((content, rest)) => sp_prepend_items(
                seq![content],
                sp_read_lookup_items(rest, (n - 1) as nat),
            ),
        }
    }
}

/// The table read: a 16-bit signed entry count, then that many strings in
/// wire order.  A count of zero or less yields an empty table.
pub open spec fn sp_read_lookup(s: Seq<u8>) -> Result<(Seq<Seq<u8>>, Seq<u8>), ReadError> {
    match prim::sp_read_i16(s) {
        None => Err(ReadError::Length),
        Some((count, rest)) => sp_read_lookup_items(
            rest,
            if count >= 0 {
                count as nat
            } else {
                0
            },
        ),
    }
}

/// Resolution of one table reference from the front of the input: a 16-bit
/// signed index, then the entry at that index.  Fails with
/// `OutOfBounds(index, table_len)` exactly when the index is negative or at
/// least the table length.
pub open spec fn sp_resolve(table: Seq<Seq<u8>>, s: Seq<u8>) -> Result<
    (Seq<u8>, Seq<u8>),
    ReadIndexGetError,
> {
    match prim::sp_read_i16(s) {
        None => Err(ReadIndexGetError::ReadIndex),
        Some((i, rest)) => if 0 <= i < table.len() {
            Ok((table[i as int], rest))
        } else {
            Err(ReadIndexGetError::OutOfBounds(i, table.len() as usize))
        },
    }
}

/// For every input whose first two bytes encode an index `i` with
/// `0 <= i < table.len()`, resolution returns exactly `table[i]`.
pub proof fn lemma_resolve_in_range(table: Seq<Seq<u8>>, s: Seq<u8>)
    requires
        s.len() >= 2,
        0 <= prim::sp_read_i16(s).unwrap().0 < table.len(),
    ensures
        sp_resolve(table, s) == Ok::<_, ReadIndexGetError>(
            (table[prim::sp_read_i16(s).unwrap().0 as int], s.skip(2)),
        ),
{
}

/// For every input whose first two bytes encode an index outside the
/// table, resolution fails with `OutOfBounds` carrying that index and the
/// table length.
pub proof fn lemma_resolve_out_of_range(table: Seq<Seq<u8>>, s: Seq<u8>)
    requires
        s.len() >= 2,
        !(0 <= prim::sp_read_i16(s).unwrap().0 < table.len()),
        table.len() <= usize::MAX,
    ensures
        sp_resolve(table, s) == Err::<(Seq<u8>, Seq<u8>), _>(
            ReadIndexGetError::OutOfBounds(
                prim::sp_read_i16(s).unwrap().0,
                table.len() as usize,
            ),
        ),
{
}

/// The lookup table itself: built once, immutable thereafter.
#[derive(Debug, Clone)]
pub struct Lookup {
    entries: Vec<SimpleString>,
}

impl View for Lookup {
    type V = Seq<Seq<u8>>;

    closed spec fn view(&self) -> Seq<Seq<u8>> {
        string_views(self.entries@)
    }
}

impl Default for Lookup {
    /// An empty table.
    fn default() -> (r: Self)
        ensures
            r@ == Seq::<Seq<u8>>::empty(),
    {
        let r = Lookup { entries: Vec::new() };
        proof {
            assert(r@ =~= Seq::<Seq<u8>>::empty());
        }
        r
    }
}

impl Lookup {
    /// The number of entries.
    pub fn len(&self) -> (n: usize)
        ensures
            n == self@.len(),
    {
        self.entries.len()
    }

    /// The entry at `i`, when there is one.
    pub fn get(&self, i: usize) -> (r: Option<&SimpleString>)
        ensures
            match r {
                Some(entry) => i < self@.len() && entry@ == self@[i as int],
                None => i >= self@.len(),
            },
    {
        if i < self.entries.len() {
            Some(&self.entries[i])
        } else {
            None
        }
    }

    /// Reads the table: a 16-bit signed count, then that many strings.
    pub fn read<'a>(input: &'a [u8]) -> (r: Result<(Lookup, &'a [u8]), ReadError>)
        ensures
            match r {
                Ok((lk, rest)) => sp_read_lookup(input@) matches Ok(p) && lk@ == p.0 && rest@
                    == p.1,
                Err(e) => sp_read_lookup(input@) matches Err(e2) && e == e2,
            },
    {
        let count = match prim::read_i16(input) {
            None => {
                return Err(ReadError::Length);
            },
            Some((count, rest)) => (count, rest),
        };
        let (count, start): (i16, &[u8]) = count;
        let n: usize = if count > 0 {
            count as usize
        } else {
            0
        };
        let mut list: Vec<SimpleString> = Vec::new();
        let mut cur: &[u8] = start;
        let mut i: usize = 0;
        while i < n
            invariant
                i <= n,
                string_views(list@).len() == i as nat,
                sp_read_lookup(input@) == sp_prepend_items(
                    string_views(list@),
                    sp_read_lookup_items(cur@, (n - i) as nat),
                ),
            decreases n - i,
        {
            match string::read_dotnet_str(cur) {
                Err(e) => {
                    return Err(ReadError::String(e));
                },
                Ok((s, rest)) => {
                    let ghost old_views = string_views(list@);
                    list.push(s);
                    proof {
                        assert(string_views(list@) =~= old_views + seq![list@[i as int]@]);
                        assert(forall|more: Seq<Seq<u8>>|
                            (old_views + seq![list@[i as int]@]) + more =~= old_views + (seq![
                                list@[i as int]@,
                            ] + more));
                    }
                    cur = rest;
                },
            }
            i = i + 1;
        }
        proof {
            assert(sp_read_lookup_items(cur@, 0) == Ok::<_, ReadError>((
                Seq::<Seq<u8>>::empty(),
                cur@,
            )));
            assert(string_views(list@) + Seq::<Seq<u8>>::empty() =~= string_views(list@));
        }
        Ok((Lookup { entries: list }, cur))
    }

    /// Reads a 16-bit signed index and resolves it to the entry at that
    /// index, by reference into the table; an index outside the table is a
    /// hard error, never clamped.
    pub fn read_index_get<'s, 'a>(&'s self, input: &'a [u8]) -> (r: Result<
        (&'s SimpleString, &'a [u8]),
        ReadIndexGetError,
    >)
        ensures
            match r {
                Ok((entry, rest)) => sp_resolve(self@, input@) matches Ok(p) && entry@ == p.0
                    && rest@ == p.1,
                Err(e) => sp_resolve(self@, input@) matches Err(e2) && e == e2,
            },
    {
        match prim::read_i16(input) {
            None => Err(ReadIndexGetError::ReadIndex),
            Some((i, rest)) => {
                if i >= 0 && (i as usize) < self.entries.len() {
                    Ok((&self.entries[i as usize], rest))
                } else {
                    Err(ReadIndexGetError::OutOfBounds(i, self.entries.len()))
                }
            },
        }
    }
}

} // verus!
