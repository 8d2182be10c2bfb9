//! A scanner for the inline literal syntax: it walks a text while tracking
//! quoted strings and bracket nesting, and splits the text at separators
//! that stand at the top level (outside every string and every bracket).

use vstd::prelude::*;

verus! {

/// Where the scanner stands: outside any string, inside a double-quoted
/// string, just after a backslash in a double-quoted string, inside a
/// single-quoted string, or sunk after a closing bracket with nothing open.
#[derive(PartialEq, Eq, Structural, Clone, Copy, Debug)]
pub enum ScanMode {
    Normal,
    Dq,
    DqEsc,
    Sq,
    Bad,
}

/// One step of the scanner: the state after reading `c` in state `(m, d)`,
/// where `d` counts the open brackets and braces.
pub open spec fn scan_step(m: ScanMode, d: nat, c: char) -> (ScanMode, nat) {
    match m {
        ScanMode::Normal => if c == '"' {
            (ScanMode::Dq, d)
        } else if c == '\'' {
            (ScanMode::Sq, d)
        } else if c == '[' || c == '{' {
            (ScanMode::Normal, d + 1)
        } else if c == ']' || c == '}' {
            if d > 0 {
                (ScanMode::Normal, (d - 1) as nat)
            } else {
                (ScanMode::Bad, 0)
            }
        } else {
            (ScanMode::Normal, d)
        },
        ScanMode::Dq => if c == '\\' {
            (ScanMode::DqEsc, d)
        } else if c == '"' {
            (ScanMode::Normal, d)
        } else {
            (ScanMode::Dq, d)
        },
        ScanMode::DqEsc => (ScanMode::Dq, d),
        ScanMode::Sq => if c == '\'' {
            (ScanMode::Normal, d)
        } else {
            (ScanMode::Sq, d)
        },
        ScanMode::Bad => (ScanMode::Bad, 0),
    }
}

/// The scanner state after reading a whole sequence.
pub open spec fn scan_seq(m: ScanMode, d: nat, s: Seq<char>) -> (ScanMode, nat)
    decreases s.len(),
{
    if s.len() == 0 {
        (m, d)
    } else {
        let st = scan_step(m, d, s[0]);
        scan_seq(st.0, st.1, s.skip(1))
    }
}

/// A text is balanced when scanning it closes every string and bracket
/// and meets no stray closing bracket.
pub open spec fn balanced(s: Seq<char>) -> bool {
    scan_seq(ScanMode::Normal, 0, s) == (ScanMode::Normal, 0nat)
}

/// The pieces of `s` between top-level occurrences of `sep`, threading the
/// scanner state. A text with no top-level separator is one piece; each
/// separator ends a piece, so `n` separators give `n + 1` pieces.
pub open spec fn split_at_seps(sep: char, s: Seq<char>, m: ScanMode, d: nat) -> Seq<Seq<char>>
    decreases s.len(),
{
    if s.len() == 0 {
        seq![Seq::<char>::empty()]
    } else if m == ScanMode::Normal && d == 0 && s[0] == sep {
        seq![Seq::<char>::empty()] + split_at_seps(sep, s.skip(1), ScanMode::Normal, 0)
    } else {
        let st = scan_step(m, d, s[0]);
        let rest = split_at_seps(sep, s.skip(1), st.0, st.1);
        seq![seq![s[0]] + rest[0]] + rest.skip(1)
    }
}

/// The pieces of a whole text between its top-level separators.
pub open spec fn split_top(sep: char, s: Seq<char>) -> Seq<Seq<char>> {
    split_at_seps(sep, s, ScanMode::Normal, 0)
}

/// A split always yields at least one piece.
proof fn lemma_split_nonempty(sep: char, s: Seq<char>, m: ScanMode, d: nat)
    ensures
        split_at_seps(sep, s, m, d).len() >= 1,
{
    if s.len() == 0 {
    } else if m == ScanMode::Normal && d == 0 && s[0] == sep {
        assert(split_at_seps(sep, s, m, d).len() >= 1);
    } else {
        assert(split_at_seps(sep, s, m, d).len() >= 1);
    }
}

/// Reading one more character advances the scan of a prefix by one step.
proof fn lemma_scan_snoc(m: ScanMode, d: nat, s: Seq<char>, c: char)
    ensures
        scan_seq(m, d, s.push(c)) == ({
            let st = scan_seq(m, d, s);
            scan_step(st.0, st.1, c)
        }),
    decreases s.len(),
{
    if s.len() == 0 {
        assert(s.push(c)[0] == c);
        assert(s.push(c).skip(1) =~= Seq::<char>::empty());
        let st = scan_step(m, d, c);
        assert(scan_seq(st.0, st.1, Seq::<char>::empty()) == (st.0, st.1));
        assert(scan_seq(m, d, s) == (m, d));
    } else {
        assert(s.push(c)[0] == s[0]);
        assert(s.push(c).skip(1) =~= s.skip(1).push(c));
        let st = scan_step(m, d, s[0]);
        lemma_scan_snoc(st.0, st.1, s.skip(1), c);
        assert(scan_seq(m, d, s.push(c)) == scan_seq(st.0, st.1, s.skip(1).push(c)));
        assert(scan_seq(m, d, s) == scan_seq(st.0, st.1, s.skip(1)));
    }
}

/// One step of the scanner, on machine integers.
fn step_state(m: ScanMode, d: usize, c: char) -> (r: (ScanMode, usize))
    requires
        d < usize::MAX,
    ensures
        (r.0, r.1 as nat) == scan_step(m, d as nat, c),
{
    match m {
        ScanMode::Normal => if c == '"' {
            (ScanMode::Dq, d)
        } else if c == '\'' {
            (ScanMode::Sq, d)
        } else if c == '[' || c == '{' {
            (ScanMode::Normal, d + 1)
        } else if c == ']' || c == '}' {
            if d > 0 {
                (ScanMode::Normal, d - 1)
            } else {
                (ScanMode::Bad, 0)
            }
        } else {
            (ScanMode::Normal, d)
        },
        ScanMode::Dq => if c == '\\' {
            (ScanMode::DqEsc, d)
        } else if c == '"' {
            (ScanMode::Normal, d)
        } else {
            (ScanMode::Dq, d)
        },
        ScanMode::DqEsc => (ScanMode::Dq, d),
        ScanMode::Sq => if c == '\'' {
            (ScanMode::Normal, d)
        } else {
            (ScanMode::Sq, d)
        },
        ScanMode::Bad => (ScanMode::Bad, 0),
    }
}

/// Splits a text at its top-level separators. The flag reports whether the
/// text was balanced; the pieces are returned either way.
pub fn split_str(s: &str, sep: char) -> (r: (Vec<String>, bool))
    requires
        scan_step(ScanMode::Normal, 0, sep) == (ScanMode::Normal, 0nat),
    ensures
        r.0.deep_view() == split_top(sep, s@),
        r.1 == balanced(s@),
{
    let n = s.unicode_len();
    let mut parts: Vec<String> = Vec::new();
    let mut start: usize = 0;
    let mut i: usize = 0;
    let mut mode = ScanMode::Normal;
    let mut depth: usize = 0;
    proof {
        assert(s@.skip(0) =~= s@);
        assert(s@.take(0) =~= Seq::<char>::empty());
        assert(s@.subrange(0, 0) =~= Seq::<char>::empty());
        lemma_split_nonempty(sep, s@, ScanMode::Normal, 0);
        let rem = split_top(sep, s@);
        assert(Seq::<char>::empty() + rem[0] =~= rem[0]);
        assert(parts.deep_view() =~= Seq::<Seq<char>>::empty());
        assert(parts.deep_view() + seq![Seq::<char>::empty() + rem[0]] + rem.skip(1) =~= rem);
    }
    while i < n
        invariant
            start <= i <= n,
            n == s@.len(),
            depth <= i,
            scan_step(ScanMode::Normal, 0, sep) == (ScanMode::Normal, 0nat),
            (mode, depth as nat) == scan_seq(ScanMode::Normal, 0, s@.take(i as int)),
            split_top(sep, s@) == ({
                let cur = s@.subrange(start as int, i as int);
                let rem = split_at_seps(sep, s@.skip(i as int), mode, depth as nat);
                parts.deep_view() + seq![cur + rem[0]] + rem.skip(1)
            }),
        decreases n - i,
    {
        let ghost pre = s@.take(i as int);
        let ghost cur = s@.subrange(start as int, i as int);
        let ghost rem = split_at_seps(sep, s@.skip(i as int), mode, depth as nat);
        let c = s.get_char(i);
        proof {
            assert(s@.skip(i as int)[0] == s@[i as int]);
            assert(s@.skip(i as int).skip(1) =~= s@.skip(i + 1));
            assert(s@.take(i + 1) =~= pre.push(c));
            lemma_scan_snoc(ScanMode::Normal, 0, pre, c);
        }
        if mode == ScanMode::Normal && depth == 0 && c == sep {
            let ghost rem2 = split_at_seps(sep, s@.skip(i + 1), ScanMode::Normal, 0nat);
            let piece = s.substring_char(start, i).to_owned();
            proof {
                lemma_split_nonempty(sep, s@.skip(i + 1), ScanMode::Normal, 0nat);
                assert(rem == seq![Seq::<char>::empty()] + rem2);
                assert(rem[0] =~= Seq::<char>::empty());
                assert(rem.skip(1) =~= rem2);
                assert(cur + rem[0] =~= cur);
                assert(rem2 =~= seq![rem2[0]] + rem2.skip(1));
                assert((parts.deep_view() + seq![cur + rem[0]] + rem.skip(1)) =~= (
                parts.deep_view().push(cur) + seq![Seq::<char>::empty() + rem2[0]]
                    + rem2.skip(1)));
            }
            parts.push(piece);
            proof {
                assert(parts.deep_view() =~= parts.deep_view().drop_last().push(cur));
            }
            start = i + 1;
        } else {
            let st = step_state(mode, depth, c);
            let ghost rem2 = split_at_seps(sep, s@.skip(i + 1), st.0, st.1 as nat);
            proof {
                lemma_split_nonempty(sep, s@.skip(i + 1), st.0, st.1 as nat);
                assert(rem == seq![seq![c] + rem2[0]] + rem2.skip(1));
                assert(rem[0] == seq![c] + rem2[0]);
                assert(rem.skip(1) =~= rem2.skip(1));
                assert(cur + rem[0] =~= (s@.subrange(start as int, i + 1) + rem2[0]));
            }
            mode = st.0;
            depth = st.1;
        }
        i = i + 1;
    }
    proof {
        assert(s@.take(n as int) =~= s@);
        assert(s@.skip(n as int) =~= Seq::<char>::empty());
        let cur = s@.subrange(start as int, n as int);
        let rem = split_at_seps(sep, s@.skip(n as int), mode, depth as nat);
        assert(rem == seq![Seq::<char>::empty()]);
        assert(rem[0] =~= Seq::<char>::empty());
        assert(rem.skip(1) =~= Seq::<Seq<char>>::empty());
        assert(cur + rem[0] =~= cur);
        assert((parts.deep_view() + seq![cur + rem[0]] + rem.skip(1)) =~= parts.deep_view().push(
        cur));
    }
    let last = s.substring_char(start, n).to_owned();
    parts.push(last);
    proof {
        assert(parts.deep_view() =~= parts.deep_view().drop_last().push(
        s@.subrange(start as int, n as int)));
    }
    let ok = mode == ScanMode::Normal && depth == 0;
    (parts, ok)
}

} // verus!
