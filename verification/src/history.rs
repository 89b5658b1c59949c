//! Persisting the session history: computing the text that extends a
//! history file with the entries it does not yet hold.

use vstd::prelude::*;

use crate::tokenize::token_views;

verus! {

/// How many leading entries two histories share.
pub open spec fn common_prefix_len(a: Seq<Seq<char>>, b: Seq<Seq<char>>) -> int
    decreases a.len(),
{
    if a.len() > 0 && b.len() > 0 && a[0] == b[0] {
        1 + common_prefix_len(a.drop_first(), b.drop_first())
    } else {
        0
    }
}

/// The entries, each followed by one newline.
pub open spec fn lines_concat(ws: Seq<Seq<char>>) -> Seq<char>
    decreases ws.len(),
{
    if ws.len() == 0 {
        Seq::empty()
    } else {
        ws[0] + "\n"@ + lines_concat(ws.drop_first())
    }
}

proof fn lemma_common_prefix_is(a: Seq<Seq<char>>, b: Seq<Seq<char>>, m: int)
    requires
        0 <= m <= a.len(),
        m <= b.len(),
        forall|k: int| 0 <= k < m ==> a[k] == b[k],
        m == a.len() || m == b.len() || a[m] != b[m],
    ensures
        common_prefix_len(a, b) == m,
    decreases a.len(),
{
    if a.len() > 0 && b.len() > 0 && a[0] == b[0] {
        lemma_common_prefix_is(a.drop_first(), b.drop_first(), m - 1);
    }
}

/// The text that `history -a` appends: every session entry after the
/// longest prefix the file already holds, one line each.
pub fn history_suffix(records: &Vec<String>, existing: &Vec<String>) -> (r: String)
    ensures
        r@ == lines_concat(
            token_views(records@).skip(
                common_prefix_len(token_views(records@), token_views(existing@)),
            ),
        ),
{
    let ghost rv = token_views(records@);
    let ghost ev = token_views(existing@);
    let mut m: usize = 0;
    while m < records.len() && m < existing.len() && records[m].eq(&existing[m])
        invariant
            rv == token_views(records@),
            ev == token_views(existing@),
            m <= records@.len(),
            m <= existing@.len(),
            forall|k: int| 0 <= k < m ==> rv[k] == ev[k],
        decreases records@.len() - m,
    {
        proof {
            assert(rv[m as int] == records@[m as int]@);
            assert(ev[m as int] == existing@[m as int]@);
        }
        m = m + 1;
    }
    proof {
        if m < records.len() && m < existing.len() {
            assert(rv[m as int] == records@[m as int]@);
            assert(ev[m as int] == existing@[m as int]@);
        }
        lemma_common_prefix_is(rv, ev, m as int);
    }
    let mut r = String::new();
    let mut i = m;
    proof {
        assert(r@ + lines_concat(rv.skip(m as int)) =~= lines_concat(rv.skip(m as int)));
    }
    while i < records.len()
        invariant
            m <= i <= records@.len(),
            rv == token_views(records@),
            lines_concat(rv.skip(m as int)) == r@ + lines_concat(rv.skip(i as int)),
        decreases records@.len() - i,
    {
        let ghost rem = rv.skip(i as int);
        proof {
            assert(rem[0] == rv[i as int]);
            assert(rv[i as int] == records@[i as int]@);
            assert(rem.drop_first() =~= rv.skip(i + 1));
        }
        let ghost r_old = r@;
        r.append(records[i].as_str());
        r.append("\n");
        proof {
            assert(r@ =~= r_old + (rem[0] + "\n"@));
            assert(r_old + (rem[0] + "\n"@) + lines_concat(rv.skip(i + 1)) =~= r_old + (rem[0]
                + "\n"@ + lines_concat(rv.skip(i + 1))));
        }
        i = i + 1;
    }
    proof {
        assert(rv.skip(i as int) =~= Seq::<Seq<char>>::empty());
        assert(r@ + Seq::<char>::empty() =~= r@);
    }
    r
}

} // verus!
