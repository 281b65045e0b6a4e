//! The positional alias protocol of the batched lookup: the alias of the
//! entry at batch position `j` is `r` followed by `j` in canonical decimal.
//! Generation and parsing are proved against one spec, so an alias made on
//! one side decodes to the same position on the other.

use vstd::prelude::*;
use crate::decimal::{spec_decimal, lemma_decimal_value, usize_to_string, parse_decimal};

verus! {

/// The alias of batch position `j`.
pub open spec fn spec_alias(j: int) -> Seq<char> {
    seq!['r'] + spec_decimal(j as nat)
}

/// Two distinct positions never share an alias.
pub proof fn lemma_alias_injective(a: int, b: int)
    requires
        a >= 0,
        b >= 0,
        spec_alias(a) == spec_alias(b),
    ensures
        a == b,
{
    assert(spec_decimal(a as nat) =~= spec_alias(a).skip(1));
    assert(spec_decimal(b as nat) =~= spec_alias(b).skip(1));
    lemma_decimal_value(a as nat);
    lemma_decimal_value(b as nat);
}

/// Render the alias of position `j`.
pub fn alias_for(j: usize) -> (r: String)
    ensures
        r@ == spec_alias(j as int),
{
    let mut s = String::from_str("r");
    let digits = usize_to_string(j);
    s.append(digits.as_str());
    proof {
        reveal_strlit("r");
        assert("r"@ =~= seq!['r']);
    }
    s
}

/// Decode an alias back to its position: `Some(j)` exactly when the string
/// is the alias of `j`.
pub fn index_for(s: &str) -> (r: Option<usize>)
    ensures
        match r {
            Some(j) => s@ == spec_alias(j as int),
            None => forall|j: usize| s@ != spec_alias(j as int),
        },
{
    let n = s.unicode_len();
    if n < 2 {
        proof {
            assert forall|j: usize| s@ != spec_alias(j as int) by {
                crate::decimal::lemma_decimal_len(j as nat);
            }
        }
        return None;
    }
    if s.get_char(0) != 'r' {
        return None;
    }
    let rest = s.substring_char(1, n);
    proof {
        assert(rest@ =~= s@.skip(1));
    }
    match parse_decimal(rest) {
        Some(j) => {
            proof {
                assert(s@ =~= seq!['r'] + rest@);
            }
            Some(j)
        },
        None => {
            proof {
                assert forall|j: usize| s@ != spec_alias(j as int) by {
                    if s@ == spec_alias(j as int) {
                        assert(rest@ =~= spec_decimal(j as nat));
                    }
                }
            }
            None
        },
    }
}

/// Contiguous batches of at most `b`, in order: the first `b` identities,
/// then the batches of the rest.
pub open spec fn spec_chunks(s: Seq<String>, b: int) -> Seq<Seq<String>>
    recommends
        b >= 1,
    decreases s.len(),
        when b >= 1
{
    if s.len() == 0 {
        Seq::<Seq<String>>::empty()
    } else if s.len() <= b {
        seq![s]
    } else {
        seq![s.take(b)] + spec_chunks(s.skip(b), b)
    }
}

/// Total number of identities across the batches.
pub open spec fn spec_total_len(chunks: Seq<Seq<String>>) -> int
    decreases chunks.len(),
{
    if chunks.len() == 0 {
        0
    } else {
        chunks.first().len() + spec_total_len(chunks.drop_first())
    }
}

/// Batching loses nothing: the batch lengths add up to the input length.
pub proof fn lemma_chunks_total_len(s: Seq<String>, b: int)
    requires
        b >= 1,
    ensures
        spec_total_len(spec_chunks(s, b)) == s.len(),
    decreases s.len(),
{
    if s.len() == 0 {
    } else if s.len() <= b {
        assert(spec_chunks(s, b).drop_first() =~= Seq::<Seq<String>>::empty());
        assert(spec_total_len(Seq::<Seq<String>>::empty()) == 0);
        assert(spec_chunks(s, b).first() == s);
    } else {
        lemma_chunks_total_len(s.skip(b), b);
        assert(spec_chunks(s, b).drop_first() =~= spec_chunks(s.skip(b), b));
        assert(spec_chunks(s, b).first() == s.take(b));
        assert(spec_total_len(spec_chunks(s, b))
            == s.take(b).len() + spec_total_len(spec_chunks(s.skip(b), b)));
    }
}

/// Every batch is non-empty and at most `b` long, and batch members are the
/// input identities in order.
pub proof fn lemma_chunks_shape(s: Seq<String>, b: int)
    requires
        b >= 1,
    ensures
        forall|c: int| 0 <= c < spec_chunks(s, b).len()
            ==> 1 <= (#[trigger] spec_chunks(s, b)[c]).len() <= b,
    decreases s.len(),
{
    if s.len() > b {
        lemma_chunks_shape(s.skip(b), b);
        assert forall|c: int| 0 <= c < spec_chunks(s, b).len()
            implies 1 <= (#[trigger] spec_chunks(s, b)[c]).len() <= b by {
            if c > 0 {
                assert(spec_chunks(s, b)[c] == spec_chunks(s.skip(b), b)[c - 1]);
            }
        }
    }
}

/// Split the identities into contiguous batches of at most `batch` each,
/// preserving order.
pub fn chunk_identities(ids: &Vec<String>, batch: usize) -> (r: Vec<Vec<String>>)
    requires
        batch >= 1,
    ensures
        r@.map_values(|c: Vec<String>| c@) == spec_chunks(ids@, batch as int),
{
    let n = ids.len();
    let mut r: Vec<Vec<String>> = Vec::new();
    let mut i: usize = 0;
    proof {
        assert(ids@.skip(0) =~= ids@);
        assert(r@.map_values(|c: Vec<String>| c@) =~= Seq::<Seq<String>>::empty());
        assert(Seq::<Seq<String>>::empty() + spec_chunks(ids@, batch as int)
            =~= spec_chunks(ids@, batch as int));
    }
    while i < n
        invariant
            batch >= 1,
            i <= n,
            n == ids@.len(),
            r@.map_values(|c: Vec<String>| c@) + spec_chunks(ids@.skip(i as int), batch as int)
                == spec_chunks(ids@, batch as int),
        decreases n - i,
    {
        let sz: usize = if n - i < batch { n - i } else { batch };
        let mut cc: Vec<String> = Vec::new();
        let mut j: usize = i;
        while j < i + sz
            invariant
                i <= j <= i + sz,
                i + sz <= n,
                n == ids@.len(),
                cc@ == ids@.subrange(i as int, j as int),
            decreases i + sz - j,
        {
            cc.push(ids[j].clone());
            proof {
                assert(cc@ =~= ids@.subrange(i as int, j as int + 1));
            }
            j = j + 1;
        }
        let ghost rest = ids@.skip(i as int);
        proof {
            assert(cc@ =~= rest.take(sz as int));
            if rest.len() <= batch as int {
                assert(rest.take(sz as int) =~= rest);
                assert(spec_chunks(rest, batch as int) == seq![rest]);
                assert(ids@.skip(i as int + sz as int) =~= Seq::<String>::empty());
            } else {
                assert(rest.skip(batch as int) =~= ids@.skip(i as int + sz as int));
            }
        }
        r.push(cc);
        proof {
            assert(r@.map_values(|c: Vec<String>| c@)
                =~= r@.map_values(|c: Vec<String>| c@).drop_last().push(cc@));
            if rest.len() <= batch as int {
                assert(spec_chunks(ids@.skip(i as int + sz as int), batch as int)
                    =~= Seq::<Seq<String>>::empty());
                assert(r@.map_values(|c: Vec<String>| c@)
                    + spec_chunks(ids@.skip(i as int + sz as int), batch as int)
                    =~= spec_chunks(ids@, batch as int));
            } else {
                assert(spec_chunks(rest, batch as int)
                    == seq![rest.take(batch as int)] + spec_chunks(rest.skip(batch as int), batch as int));
                assert(r@.map_values(|c: Vec<String>| c@)
                    + spec_chunks(ids@.skip(i as int + sz as int), batch as int)
                    =~= spec_chunks(ids@, batch as int));
            }
        }
        i = i + sz;
    }
    proof {
        assert(ids@.skip(n as int) =~= Seq::<String>::empty());
        assert(r@.map_values(|c: Vec<String>| c@) + Seq::<Seq<String>>::empty()
            =~= r@.map_values(|c: Vec<String>| c@));
    }
    r
}

} // verus!
