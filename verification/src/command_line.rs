//! The arguments the command-line mode runs with.
//!
//! An argument such as `"--data --script"`, which a shell passed as one
//! word, is split back into its words: an argument that starts with `--`,
//! holds a space and no `=` is replaced by its whitespace-separated words.
use crate::common::text::{chars_of, has_prefix, starts_with, string_of};
use vstd::prelude::*;

verus! {

/// `c` is white space (Unicode `White_Space`, as `char::is_whitespace`).
pub open spec fn is_white(c: char) -> bool {
    ||| ('\u{9}' <= c && c <= '\u{d}')
    ||| c == ' '
    ||| c == '\u{85}'
    ||| c == '\u{a0}'
    ||| c == '\u{1680}'
    ||| ('\u{2000}' <= c && c <= '\u{200a}')
    ||| c == '\u{2028}'
    ||| c == '\u{2029}'
    ||| c == '\u{202f}'
    ||| c == '\u{205f}'
    ||| c == '\u{3000}'
}

/// The words of `s`: its maximal runs of characters that are not white
/// space, in order.
pub open spec fn words(s: Seq<char>) -> Seq<Seq<char>>
    decreases s.len(),
{
    if s.len() == 0 {
        Seq::empty()
    } else {
        let w = words(s.drop_last());
        let c = s.last();
        if is_white(c) {
            w
        } else if s.len() >= 2 && !is_white(s[s.len() - 2]) {
            w.drop_last().push(w.last().push(c))
        } else {
            w.push(seq![c])
        }
    }
}

/// The arguments `args` with each one that starts with `--`, holds a space
/// and no `=` replaced by its words.
pub open spec fn expanded(args: Seq<Seq<char>>) -> Seq<Seq<char>>
    decreases args.len(),
{
    if args.len() == 0 {
        Seq::empty()
    } else {
        let rest = expanded(args.drop_last());
        let a = args.last();
        if has_prefix(a, "--"@) && a.contains(' ') && !a.contains('=') {
            rest + words(a)
        } else {
            rest.push(a)
        }
    }
}

/// Whether `c` is white space.
pub(crate) fn white(c: char) -> (r: bool)
    ensures
        r == is_white(c),
{
    ('\u{9}' <= c && c <= '\u{d}') || c == ' ' || c == '\u{85}' || c == '\u{a0}' || c == '\u{1680}'
        || ('\u{2000}' <= c && c <= '\u{200a}') || c == '\u{2028}' || c == '\u{2029}' || c == '\u{202f}'
        || c == '\u{205f}' || c == '\u{3000}'
}

/// The words of `s`.
pub fn split_words(s: &str) -> (r: Vec<String>)
    ensures
        r@.map_values(|w: String| w@) == words(s@),
{
    let v = chars_of(s);
    let mut out: Vec<String> = Vec::new();
    let mut cur: Vec<char> = Vec::new();
    let mut i: usize = 0;
    assert(v@.take(0) =~= Seq::<char>::empty());
    while i < v.len()
        invariant
            v@ == s@,
            i <= v@.len(),
            cur@.len() > 0 ==> i > 0 && !is_white(v@[i - 1]),
            cur@.len() == 0 ==> i == 0 || is_white(v@[i - 1]),
            words(v@.take(i as int)) == if cur@.len() > 0 {
                out@.map_values(|w: String| w@).push(cur@)
            } else {
                out@.map_values(|w: String| w@)
            },
        decreases v.len() - i,
    {
        let c = v[i];
        let ghost t = v@.take(i + 1);
        assert(t.drop_last() =~= v@.take(i as int));
        assert(t.last() == c);
        if white(c) {
            if cur.len() > 0 {
                let ghost before = out@;
                out.push(string_of(cur.as_slice()));
                assert(out@.map_values(|w: String| w@) =~= before.map_values(|w: String| w@).push(cur@));
                cur = Vec::new();
            }
        } else {
            let ghost old_cur = cur@;
            let ghost ws = words(v@.take(i as int));
            if cur.len() > 0 {
                assert(t[i - 1] == v@[i - 1]);
                assert(ws.drop_last().push(ws.last().push(c)) =~= out@.map_values(|w: String| w@).push(old_cur.push(c)));
            } else {
                assert(i == 0 || t[i - 1] == v@[i - 1]);
                assert(old_cur =~= Seq::<char>::empty());
            }
            cur.push(c);
            assert(cur@ =~= old_cur.push(c));
            assert(old_cur.len() == 0 ==> seq![c] =~= cur@);
        }
        i = i + 1;
    }
    assert(v@.take(i as int) =~= v@);
    if cur.len() > 0 {
        let ghost before = out@;
        out.push(string_of(cur.as_slice()));
        assert(out@.map_values(|w: String| w@) =~= before.map_values(|w: String| w@).push(cur@));
    }
    out
}

/// Whether `c` occurs in `v`.
fn has_char(v: &[char], c: char) -> (r: bool)
    ensures
        r == v@.contains(c),
{
    let mut i: usize = 0;
    while i < v.len()
        invariant
            i <= v@.len(),
            forall|k: int| 0 <= k < i ==> v@[k] != c,
        decreases v.len() - i,
    {
        if v[i] == c {
            assert(v@[i as int] == c);
            return true;
        }
        i = i + 1;
    }
    false
}

/// The arguments the command-line mode runs with, from the program's
/// arguments `args` (the first is the program itself): the others, with
/// each that starts with `--`, holds a space and no `=` split into its
/// words.
pub fn run_cli(args: Vec<String>) -> (r: Vec<String>)
    ensures
        r@.map_values(|w: String| w@) == if args@.len() <= 1 {
            Seq::<Seq<char>>::empty()
        } else {
            expanded(args@.skip(1).map_values(|w: String| w@))
        },
{
    let mut out: Vec<String> = Vec::new();
    if args.len() <= 1 {
        return out;
    }
    let ghost rest = args@.skip(1).map_values(|w: String| w@);
    let dash = chars_of("--");
    proof {
        reveal_strlit("--");
    }
    let mut i: usize = 1;
    assert(rest.take(0) =~= Seq::<Seq<char>>::empty());
    while i < args.len()
        invariant
            1 <= i <= args@.len(),
            dash@ == "--"@,
            rest == args@.skip(1).map_values(|w: String| w@),
            out@.map_values(|w: String| w@) == expanded(rest.take(i - 1)),
        decreases args.len() - i,
    {
        let a = chars_of(args[i].as_str());
        assert(rest.take(i as int).drop_last() =~= rest.take(i - 1));
        assert(rest.take(i as int).last() == args@[i as int]@);
        let ghost before = out@;
        if starts_with(a.as_slice(), dash.as_slice()) && has_char(a.as_slice(), ' ') && !has_char(a.as_slice(), '=') {
            let parts = split_words(args[i].as_str());
            let mut k: usize = 0;
            while k < parts.len()
                invariant
                    k <= parts@.len(),
                    out@.map_values(|w: String| w@) == before.map_values(|w: String| w@) + parts@.map_values(|w: String| w@).take(k as int),
                decreases parts.len() - k,
            {
                let ghost mid = out@;
                out.push(parts[k].clone());
                assert(out@.map_values(|w: String| w@) =~= mid.map_values(|w: String| w@).push(parts@[k as int]@));
                assert(parts@.map_values(|w: String| w@).take(k + 1) =~= parts@.map_values(|w: String| w@).take(k as int).push(parts@[k as int]@));
                k = k + 1;
            }
            assert(parts@.map_values(|w: String| w@).take(k as int) =~= parts@.map_values(|w: String| w@));
        } else {
            out.push(args[i].clone());
            assert(out@.map_values(|w: String| w@) =~= before.map_values(|w: String| w@).push(args@[i as int]@));
        }
        i = i + 1;
    }
    assert(rest.take(i - 1) =~= rest);
    out
}

} // verus!
