//! Message contents as a list of fields, each a big-endian `u32` length
//! followed by that many bytes.

use vstd::prelude::*;
use crate::codec::{
    be32, copy_range, get_be32, lemma_read_written, lemma_written_read, push_all, push_be32,
    read_be32,
};

verus! {

/// The fields a byte string splits into, if it splits exactly.
#[verifier::opaque]
pub open spec fn fields_spec(b: Seq<u8>) -> Option<Seq<Seq<u8>>>
    decreases b.len(),
{
    if b.len() == 0 {
        Some(Seq::empty())
    } else if b.len() < 4 {
        None
    } else {
        let l = read_be32(b, 0) as int;
        if b.len() - 4 < l {
            None
        } else {
            match fields_spec(b.subrange(4 + l, b.len() as int)) {
                None => None,
                Some(rest) => Some(seq![b.subrange(4, 4 + l)] + rest),
            }
        }
    }
}

proof fn lemma_fields_unfold(b: Seq<u8>)
    ensures
        fields_spec(b) == if b.len() == 0 {
            Some(Seq::empty())
        } else if b.len() < 4 {
            None
        } else {
            let l = read_be32(b, 0) as int;
            if b.len() - 4 < l {
                None
            } else {
                match fields_spec(b.subrange(4 + l, b.len() as int)) {
                    None => None,
                    Some(rest) => Some(seq![b.subrange(4, 4 + l)] + rest),
                }
            }
        },
{
    reveal_with_fuel(fields_spec, 1);
}

/// The bytes of a list of fields.
pub open spec fn join_spec(fs: Seq<Seq<u8>>) -> Seq<u8>
    decreases fs.len(),
{
    if fs.len() == 0 {
        Seq::empty()
    } else {
        be32(fs[0].len() as u32) + fs[0] + join_spec(fs.drop_first())
    }
}

/// Every field's length fits the length prefix.
pub open spec fn joinable(fs: Seq<Seq<u8>>) -> bool {
    forall|i: int| 0 <= i < fs.len() ==> (#[trigger] fs[i]).len() <= u32::MAX
}

pub open spec fn fields_view(v: Seq<Vec<u8>>) -> Seq<Seq<u8>> {
    v.map_values(|f: Vec<u8>| f@)
}

/// Splitting the join of fields gives those fields back.
pub proof fn lemma_split_join(fs: Seq<Seq<u8>>)
    requires
        joinable(fs),
    ensures
        fields_spec(join_spec(fs)) == Some(fs),
    decreases fs.len(),
{
    lemma_fields_unfold(join_spec(fs));
    if fs.len() > 0 {
        let b = join_spec(fs);
        let l = fs[0].len() as int;
        let tail = fs.drop_first();
        assert(joinable(tail)) by {
            assert forall|i: int| 0 <= i < tail.len() implies (#[trigger] tail[i]).len()
                <= u32::MAX by {
                assert(tail[i] == fs[i + 1]);
            }
        }
        lemma_split_join(tail);
        assert(b.subrange(0, 4) =~= be32(l as u32));
        lemma_read_written(b, 0, l as u32);
        assert(b.subrange(4 + l, b.len() as int) =~= join_spec(tail));
        assert(b.subrange(4, 4 + l) =~= fs[0]);
        assert(seq![fs[0]] + tail =~= fs);
    }
}

/// Splits a byte string into its fields; `None` when a length prefix is cut
/// short or announces more bytes than follow.
pub fn split_fields(b: &Vec<u8>) -> (r: Option<Vec<Vec<u8>>>)
    ensures
        match (r, fields_spec(b@)) {
            (Some(v), Some(fs)) => fields_view(v@) == fs,
            (None, None) => true,
            _ => false,
        },
{
    let n = b.len();
    let mut out: Vec<Vec<u8>> = Vec::new();
    let mut i: usize = 0;
    proof {
        assert(b@.subrange(0, n as int) =~= b@);
        match fields_spec(b@) {
            None => {},
            Some(rest) => {
                assert(fields_view(out@) + rest =~= rest);
            },
        }
    }
    while i < n
        invariant
            n == b@.len(),
            i <= n,
            fields_spec(b@) == match fields_spec(b@.subrange(i as int, n as int)) {
                None => None,
                Some(rest) => Some(fields_view(out@) + rest),
            },
        decreases n - i,
    {
        let ghost s = b@.subrange(i as int, n as int);
        proof {
            lemma_fields_unfold(s);
        }
        if n - i < 4 {
            assert(fields_spec(s) is None);
            return None;
        }
        let l = get_be32(b, i) as usize;
        assert(read_be32(s, 0) == read_be32(b@, i as int));
        if n - i - 4 < l {
            assert(fields_spec(s) is None);
            return None;
        }
        let f = copy_range(b, i + 4, i + 4 + l);
        let ghost before = out@;
        out.push(f);
        assert(s.subrange(4 + l, s.len() as int) =~= b@.subrange((i + 4 + l) as int, n as int));
        assert(s.subrange(4, 4 + l) =~= f@);
        assert(fields_view(out@) =~= fields_view(before).push(f@));
        i = i + 4 + l;
        proof {
            match fields_spec(b@.subrange(i as int, n as int)) {
                None => {},
                Some(rest) => {
                    assert(fields_view(before) + (seq![f@] + rest) =~= fields_view(out@) + rest);
                },
            }
        }
    }
    assert(b@.subrange(i as int, n as int) =~= Seq::<u8>::empty());
    proof {
        lemma_fields_unfold(b@.subrange(i as int, n as int));
    }
    assert(fields_view(out@) + Seq::<Seq<u8>>::empty() =~= fields_view(out@));
    Some(out)
}

/// Joins fields, each behind its length.
pub fn join_fields(fs: &Vec<Vec<u8>>) -> (r: Vec<u8>)
    requires
        joinable(fields_view(fs@)),
    ensures
        r@ == join_spec(fields_view(fs@)),
{
    let mut out: Vec<u8> = Vec::new();
    let mut i: usize = fs.len();
    let ghost all = fields_view(fs@);
    while i > 0
        invariant
            i <= fs@.len(),
            all == fields_view(fs@),
            joinable(all),
            out@ == join_spec(all.subrange(i as int, all.len() as int)),
        decreases i,
    {
        i = i - 1;
        let mut piece: Vec<u8> = Vec::new();
        assert(all[i as int] == fs@[i as int]@);
        assert(all[i as int].len() <= u32::MAX);
        push_be32(&mut piece, fs[i].len() as u32);
        push_all(&mut piece, &fs[i]);
        push_all(&mut piece, &out);
        let ghost sub = all.subrange(i as int, all.len() as int);
        assert(sub.drop_first() =~= all.subrange(i + 1, all.len() as int));
        assert(sub[0] == all[i as int]);
        out = piece;
    }
    assert(all.subrange(0, all.len() as int) =~= all);
    out
}

/// Splitting bytes that split and joining the fields again gives the bytes.
proof fn lemma_split_parts(b: Seq<u8>)
    requires
        fields_spec(b) is Some,
        b.len() > 0,
    ensures
        ({
            let l = read_be32(b, 0) as int;
            &&& 4 + l <= b.len()
            &&& fields_spec(b.subrange(4 + l, b.len() as int)) is Some
            &&& fields_spec(b)->Some_0 == seq![b.subrange(4, 4 + l)] + fields_spec(
                b.subrange(4 + l, b.len() as int),
            )->Some_0
        }),
{
    reveal_with_fuel(fields_spec, 1);
}

/// Splitting bytes that split and joining the fields again gives the bytes.
pub proof fn lemma_join_split(b: Seq<u8>)
    requires
        fields_spec(b) is Some,
    ensures
        joinable(fields_spec(b)->Some_0),
        join_spec(fields_spec(b)->Some_0) == b,
    decreases b.len(),
{
    if b.len() > 0 {
        lemma_split_parts(b);
        let l = read_be32(b, 0) as int;
        let rest = b.subrange(4 + l, b.len() as int);
        let head = b.subrange(4, 4 + l);
        let tail = fields_spec(rest)->Some_0;
        let fs = fields_spec(b)->Some_0;
        lemma_join_split(rest);
        assert(fs.drop_first() =~= tail);
        assert(fs[0] == head);
        assert forall|i: int| 0 <= i < fs.len() implies (#[trigger] fs[i]).len() <= u32::MAX by {
            if i > 0 {
                assert(fs[i] == tail[i - 1]);
            }
        }
        lemma_written_read(b, 0);
        assert(head.len() as u32 == read_be32(b, 0));
        assert(join_spec(fs) == be32(head.len() as u32) + head + join_spec(tail));
        assert(b =~= b.subrange(0, 4) + head + rest);
    } else {
        reveal_with_fuel(fields_spec, 1);
        assert(fields_spec(b)->Some_0 =~= Seq::<Seq<u8>>::empty());
    }
}

} // verus!
