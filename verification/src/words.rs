//! Words set apart by white space.

use crate::text::{
    chars_of, is_whitespace, leading_word, string_of_range, texts, trim_front, white_space,
};
use vstd::prelude::*;

verus! {

/// The characters before the first white space are no more than all.
pub proof fn leading_word_bounded(s: Seq<char>)
    ensures
        leading_word(s).len() <= s.len(),
        leading_word(s) == s.take(leading_word(s).len() as int),
        s.len() > 0 && !white_space(s[0]) ==> leading_word(s).len() > 0,
    decreases s.len(),
{
    if s.len() > 0 && !white_space(s[0]) {
        leading_word_bounded(s.drop_first());
        let w = leading_word(s.drop_first());
        assert(leading_word(s) =~= s.take(leading_word(s).len() as int)) by {
            assert(w == s.drop_first().take(w.len() as int));
            assert forall|i: int| 0 <= i < w.len() + 1 implies (seq![s[0]] + w)[i] == s[i] by {
                if i > 0 {
                    assert(w[i - 1] == s.drop_first().take(w.len() as int)[i - 1]);
                }
            }
        }
    } else {
        assert(leading_word(s) =~= s.take(0));
    }
}

/// The words of a text, in order.
pub open spec fn words(s: Seq<char>) -> Seq<Seq<char>>
    decreases s.len(),
{
    let t = trim_front(s);
    let w = leading_word(t);
    if t.len() == 0 || t.len() > s.len() || w.len() == 0 || w.len() > t.len() {
        Seq::empty()
    } else {
        seq![w] + words(t.skip(w.len() as int))
    }
}

/// The words of a text, in order.
pub fn split_words(s: &str) -> (r: Vec<String>)
    ensures
        texts(r@) == words(s@),
{
    let cs: Vec<char> = chars_of(s);
    let mut r: Vec<String> = Vec::new();
    let mut i: usize = 0;
    proof {
        assert(s@.skip(0) =~= s@);
        assert(texts(r@) + words(s@) =~= words(s@));
    }
    while i < cs.len()
        invariant
            i <= cs@.len(),
            cs@ == s@,
            words(s@) == texts(r@) + words(s@.skip(i as int)),
        decreases cs@.len() - i,
    {
        let ghost rest = s@.skip(i as int);
        let mut from: usize = i;
        while from < cs.len() && is_whitespace(cs[from])
            invariant
                i <= from <= cs@.len(),
                cs@ == s@,
                trim_front(s@.skip(i as int)) == trim_front(s@.skip(from as int)),
            decreases cs@.len() - from,
        {
            proof {
                assert(s@.skip(from as int).drop_first() =~= s@.skip(from + 1));
            }
            from += 1;
        }
        let ghost t = s@.skip(from as int);
        proof {
            assert(trim_front(rest) == t);
            leading_word_bounded(t);
        }
        if from >= cs.len() {
            proof {
                assert(words(rest) =~= Seq::empty());
                assert(s@.skip(cs@.len() as int) =~= Seq::empty());
                assert(trim_front(s@.skip(cs@.len() as int)) =~= Seq::empty());
                assert(words(s@.skip(cs@.len() as int)) =~= Seq::empty());
            }
            i = cs.len();
        } else {
            let mut to: usize = from;
            proof {
                assert(t.skip(0) =~= t);
            }
            while to < cs.len() && !is_whitespace(cs[to])
                invariant
                    from <= to <= cs@.len(),
                    cs@ == s@,
                    t == s@.skip(from as int),
                    leading_word(t).len() == (to - from) + leading_word(t.skip(to - from)).len(),
                decreases cs@.len() - to,
            {
                proof {
                    let u = t.skip(to - from);
                    assert(u[0] == cs@[to as int]);
                    assert(u.drop_first() =~= t.skip(to + 1 - from));
                }
                to += 1;
            }
            let ghost w = leading_word(t);
            proof {
                let u = t.skip(to - from);
                if to < cs@.len() {
                    assert(u[0] == cs@[to as int]);
                }
                assert(leading_word(u).len() == 0);
                assert(w.len() == to - from);
                assert(w == t.take(to - from));
                assert(cs@.subrange(from as int, to as int) =~= w);
                assert(t.skip(w.len() as int) =~= s@.skip(to as int));
                assert(words(rest) == seq![w] + words(s@.skip(to as int)));
            }
            let word: String = string_of_range(&cs, from, to);
            let ghost before = texts(r@);
            r.push(word);
            proof {
                assert(texts(r@) =~= before.push(w));
                assert(before + (seq![w] + words(s@.skip(to as int))) =~= before.push(w) + words(
                    s@.skip(to as int),
                ));
            }
            i = to;
        }
    }
    proof {
        let end = s@.skip(cs@.len() as int);
        assert(end =~= Seq::empty());
        assert(trim_front(end) =~= Seq::empty());
        assert(words(end) =~= Seq::empty());
        assert(texts(r@) + Seq::<Seq<char>>::empty() =~= texts(r@));
    }
    r
}

/// The words of a text are its parts between white space.
pub proof fn words_stand_between_white_space(w: Seq<char>, rest: Seq<char>)
    requires
        w.len() > 0,
        forall|i: int| 0 <= i < w.len() ==> !white_space(#[trigger] w[i]),
        rest.len() > 0 ==> white_space(rest[0]),
    ensures
        words(w + rest) == seq![w] + words(rest),
        words(seq![' '] + rest) == words(rest),
        words(Seq::empty()).len() == 0,
{
    let s = w + rest;
    crate::text::first_words_end_at_white_space(w, rest);
    assert(s[0] == w[0]);
    assert(trim_front(s) == s);
    assert(leading_word(s) == w);
    assert(s.skip(w.len() as int) =~= rest);
    let t = seq![' '] + rest;
    assert(t[0] == ' ');
    assert(t.drop_first() =~= rest);
    assert(trim_front(t) == trim_front(rest));
    front_is_no_longer(rest);
}

proof fn front_is_no_longer(s: Seq<char>)
    ensures
        trim_front(s).len() <= s.len(),
    decreases s.len(),
{
    if s.len() > 0 && white_space(s[0]) {
        front_is_no_longer(s.drop_first());
    }
}

} // verus!
