use vstd::prelude::*;
use crate::text::{str_to_chars, chars_to_string};

verus! {

/// The segments of `s` split on `'/'`, exactly as `str::split('/')` yields
/// them: `""` gives one empty segment, `"/"` gives two, `"a/b"` gives
/// `["a", "b"]`.
pub open spec fn split_slash(s: Seq<char>) -> Seq<Seq<char>>
    decreases s.len(),
{
    if s.len() == 0 {
        seq![Seq::<char>::empty()]
    } else if s[0] == '/' {
        seq![Seq::<char>::empty()] + split_slash(s.drop_first())
    } else {
        let rest = split_slash(s.drop_first());
        seq![seq![s[0]] + rest[0]] + rest.drop_first()
    }
}

/// Splitting always yields at least one segment.
pub proof fn lemma_split_slash_len(s: Seq<char>)
    ensures
        split_slash(s).len() >= 1,
    decreases s.len(),
{
    if s.len() == 0 {
    } else {
        lemma_split_slash_len(s.drop_first());
    }
}

/// The first segment of the split, extended at the front by `pre`.
pub open spec fn extend_first(pre: Seq<char>, segs: Seq<Seq<char>>) -> Seq<Seq<char>> {
    seq![pre + segs[0]] + segs.drop_first()
}

/// Split a path on `'/'` into its segments.
pub fn split_path(s: &str) -> (r: Vec<String>)
    ensures
        r.deep_view() == split_slash(s@),
        r.len() >= 1,
{
    let chars = str_to_chars(s);
    let n = chars.len();
    let mut done: Vec<String> = Vec::new();
    let mut cur: Vec<char> = Vec::new();
    let mut i: usize = 0;
    proof {
        lemma_split_slash_len(s@);
        assert(s@.skip(0) =~= s@);
        assert(extend_first(Seq::<char>::empty(), split_slash(s@)) =~= split_slash(s@));
    }
    while i < n
        invariant
            chars@ == s@,
            n == s@.len(),
            i <= n,
            split_slash(s@) == done.deep_view() + extend_first(cur@, split_slash(s@.skip(i as int))),
        decreases n - i,
    {
        let ghost tail = s@.skip(i as int);
        let ghost rest = split_slash(s@.skip(i as int + 1));
        let ghost done0 = done.deep_view();
        let ghost cur0 = cur@;
        proof {
            assert(tail.len() > 0);
            assert(tail[0] == s@[i as int]);
            assert(tail.drop_first() =~= s@.skip(i as int + 1));
            lemma_split_slash_len(s@.skip(i as int + 1));
        }
        let c = chars[i];
        if c == '/' {
            let seg = chars_to_string(&cur);
            done.push(seg);
            cur = Vec::new();
            proof {
                assert(split_slash(tail) == seq![Seq::<char>::empty()] + rest);
                assert(extend_first(cur0, split_slash(tail)) =~~= seq![cur0] + rest);
                assert(extend_first(cur@, rest) =~~= rest);
                assert(done.deep_view() =~~= done0 + seq![cur0]);
                assert(done0 + extend_first(cur0, split_slash(tail))
                    =~~= done.deep_view() + extend_first(cur@, rest));
            }
        } else {
            cur.push(c);
            proof {
                assert(split_slash(tail) == seq![seq![tail[0]] + rest[0]] + rest.drop_first());
                assert(cur@ =~= cur0 + seq![tail[0]]);
                assert(cur0 + (seq![tail[0]] + rest[0]) =~~= cur@ + rest[0]);
                assert(extend_first(cur0, split_slash(tail)) =~~= seq![cur@ + rest[0]] + rest.drop_first());
                assert(extend_first(cur@, rest) =~~= seq![cur@ + rest[0]] + rest.drop_first());
                assert(done0 + extend_first(cur0, split_slash(tail))
                    =~~= done.deep_view() + extend_first(cur@, rest));
            }
        }
        i = i + 1;
    }
    let ghost done0 = done.deep_view();
    let ghost cur0 = cur@;
    proof {
        assert(s@.skip(n as int) =~= Seq::<char>::empty());
        assert(extend_first(cur0, split_slash(s@.skip(n as int))) =~~= seq![cur0]);
    }
    let last = chars_to_string(&cur);
    done.push(last);
    proof {
        assert(done.deep_view() =~~= done0 + seq![cur0]);
        assert(split_slash(s@) =~~= done.deep_view());
    }
    done
}

} // verus!
