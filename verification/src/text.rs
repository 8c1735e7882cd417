//! Small string helpers: composing identifiers and splitting on a
//! separator, with exact descriptions of the produced sequences.
use vstd::prelude::*;
use vstd::string::StrSliceExecFns;
use vstd::string::StringExecFns;

verus! {

/// Relies on `String::push`: appends exactly one character.
#[verifier::external_body]
pub(crate) fn push_char(s: &mut String, c: char)
    ensures
        final(s)@ == old(s)@.push(c),
{
    s.push(c);
}

/// The canonical identifier `"{namespace}/{kind}/{name}"`.
pub open spec fn spec_string_id(ns: Seq<char>, kind: Seq<char>, name: Seq<char>) -> Seq<char> {
    ns + seq!['/'] + kind + seq!['/'] + name
}

pub fn make_string_id(ns: &String, kind: &String, name: &String) -> (r: String)
    ensures
        r@ == spec_string_id(ns@, kind@, name@),
{
    let mut s = String::new();
    s.append(ns.as_str());
    push_char(&mut s, '/');
    s.append(kind.as_str());
    push_char(&mut s, '/');
    s.append(name.as_str());
    proof {
        assert(s@ =~= spec_string_id(ns@, kind@, name@));
    }
    s
}

/// Splitting a sequence on a separator, described from the right: the
/// split of the empty sequence is one empty piece; a trailing separator
/// opens a fresh empty piece; any other character extends the last piece.
pub open spec fn spec_split(s: Seq<char>, sep: char) -> Seq<Seq<char>>
    decreases s.len(),
{
    if s.len() == 0 {
        seq![Seq::<char>::empty()]
    } else if s.last() == sep {
        spec_split(s.drop_last(), sep).push(Seq::empty())
    } else {
        let r = spec_split(s.drop_last(), sep);
        r.update(r.len() - 1, r.last().push(s.last()))
    }
}

pub proof fn lemma_spec_split_len(s: Seq<char>, sep: char)
    ensures
        spec_split(s, sep).len() >= 1,
    decreases s.len(),
{
    if s.len() > 0 {
        lemma_spec_split_len(s.drop_last(), sep);
    }
}

/// Whether `needle` occurs contiguously inside `hay`. The empty
/// sequence occurs in everything.
pub open spec fn is_substring(hay: Seq<char>, needle: Seq<char>) -> bool {
    exists|k: int|
        0 <= k <= hay.len() - needle.len() && #[trigger] hay.subrange(k, k + needle.len())
            == needle
}

/// Searches for one sequence of characters inside another, as
/// `is_substring` fixes it.
#[verifier::loop_isolation(false)]
pub fn contains_substring(hay: &String, needle: &String) -> (r: bool)
    ensures
        r == is_substring(hay@, needle@),
{
    let hl = hay.as_str().unicode_len();
    let nl = needle.as_str().unicode_len();
    if nl == 0 {
        proof {
            assert(hay@.subrange(0int, 0int + needle@.len() as int) =~= needle@);
            assert(is_substring(hay@, needle@));
        }
        return true;
    }
    if nl > hl {
        proof {
            if is_substring(hay@, needle@) {
                let k = choose|k: int|
                    0 <= k <= hay@.len() - needle@.len() && #[trigger] hay@.subrange(
                        k,
                        k + needle@.len(),
                    ) == needle@;
                assert(false);
            }
        }
        return false;
    }
    let mut k: usize = 0;
    while k <= hl - nl
        invariant
            nl <= hl,
            hl == hay@.len(),
            nl == needle@.len(),
            0 <= k <= hl - nl + 1,
            forall|kk: int|
                0 <= kk < k ==> #[trigger] hay@.subrange(kk, kk + needle@.len()) != needle@,
        decreases hl - nl - k + 1,
    {
        let mut j: usize = 0;
        let mut mism = false;
        while j < nl && !mism
            invariant
                0 <= j <= nl,
                k + nl <= hl,
                !mism ==> forall|jj: int| 0 <= jj < j ==> hay@[k + jj] == needle@[jj],
                mism ==> hay@.subrange(k as int, k + nl) != needle@,
            decreases nl - j + (if mism { 0int } else { 1int }),
        {
            let hc = hay.as_str().get_char(k + j);
            let nc = needle.as_str().get_char(j);
            if hc == nc {
                j = j + 1;
            } else {
                proof {
                    assert(hay@.subrange(k as int, k + nl)[j as int] == hay@[k + j]);
                }
                mism = true;
            }
        }
        if !mism {
            proof {
                assert(hay@.subrange(k as int, k + nl) =~= needle@);
            }
            return true;
        }
        k = k + 1;
    }
    proof {
        if is_substring(hay@, needle@) {
            let kk = choose|kk: int|
                0 <= kk <= hay@.len() - needle@.len() && #[trigger] hay@.subrange(
                    kk,
                    kk + needle@.len(),
                ) == needle@;
            assert(hay@.subrange(kk, kk + needle@.len()) != needle@);
        }
    }
    false
}

/// The views of a sequence of strings.
pub open spec fn views(parts: Seq<String>) -> Seq<Seq<char>> {
    parts.map_values(|p: String| p@)
}

#[verifier::loop_isolation(false)]
pub fn split_on(s: &String, sep: char) -> (parts: Vec<String>)
    ensures
        views(parts@) == spec_split(s@, sep),
        parts@.len() >= 1,
{
    let n = s.as_str().unicode_len();
    let mut done: Vec<String> = Vec::new();
    let mut cur: String = String::new();
    let mut i: usize = 0;
    proof {
        assert(s@.take(0) =~= Seq::<char>::empty());
        assert(spec_split(s@.take(0), sep) =~= views(done@).push(cur@));
    }
    while i < n
        invariant
            0 <= i <= n,
            n == s@.len(),
            spec_split(s@.take(i as int), sep) =~= views(done@).push(cur@),
        decreases n - i,
    {
        let c = s.as_str().get_char(i);
        proof {
            assert(s@.take(i + 1).drop_last() =~= s@.take(i as int));
            assert(s@.take(i + 1).last() == s@[i as int]);
            lemma_spec_split_len(s@.take(i as int), sep);
        }
        let ghost done0 = done@;
        let ghost cur0 = cur@;
        if c == sep {
            done.push(cur);
            cur = String::new();
            proof {
                assert(views(done@) =~= views(done0).push(cur0));
                assert(spec_split(s@.take(i + 1), sep) =~= views(done@).push(cur@));
            }
        } else {
            push_char(&mut cur, c);
            proof {
                let r = spec_split(s@.take(i as int), sep);
                assert(r.update(r.len() - 1, r.last().push(c)) =~= views(done0).push(cur0.push(c)));
                assert(spec_split(s@.take(i + 1), sep) =~= views(done@).push(cur@));
            }
        }
        i = i + 1;
    }
    proof {
        assert(s@.take(n as int) =~= s@);
    }
    let ghost done1 = done@;
    let ghost cur1 = cur@;
    let mut parts = done;
    parts.push(cur);
    proof {
        assert(views(parts@) =~= views(done1).push(cur1));
    }
    parts
}

} // verus!
