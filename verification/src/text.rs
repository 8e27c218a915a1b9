//! Character-level text helpers: conversions between strings and character
//! vectors, suffix tests, newline joining, and the escaping applied to
//! source text before it is embedded in a prompt.

use vstd::prelude::*;

verus! {

use vstd::string::StrSliceExecFns;
use vstd::string::StringExecFns;

/// Relies on `String::push` from std: appends the given character to the
/// end of the string.
#[verifier::external_body]
pub(crate) fn push_char(s: &mut String, c: char)
    ensures
        final(s)@ == old(s)@.push(c),
{
    s.push(c);
}

/// The characters of `s`, one vector element per character.
pub fn chars_of(s: &str) -> (r: Vec<char>)
    ensures
        r@ == s@,
{
    let n = s.unicode_len();
    let mut r: Vec<char> = Vec::new();
    let mut i: usize = 0;
    while i < n
        invariant
            n == s@.len(),
            i <= n,
            r@ == s@.take(i as int),
        decreases n - i,
    {
        let c = s.get_char(i);
        r.push(c);
        i = i + 1;
        proof {
            assert(r@ =~= s@.take(i as int));
        }
    }
    proof {
        assert(s@.take(n as int) =~= s@);
    }
    r
}

/// The string holding exactly the characters of `cs`.
pub fn string_of(cs: &Vec<char>) -> (r: String)
    ensures
        r@ == cs@,
{
    let mut r = String::new();
    let mut i: usize = 0;
    while i < cs.len()
        invariant
            i <= cs.len(),
            r@ == cs@.take(i as int),
        decreases cs.len() - i,
    {
        push_char(&mut r, cs[i]);
        i = i + 1;
        proof {
            assert(r@ =~= cs@.take(i as int));
        }
    }
    proof {
        assert(cs@.take(cs@.len() as int) =~= cs@);
    }
    r
}

/// `s` ends with the suffix `sfx`.
pub open spec fn ends_with_spec(s: Seq<char>, sfx: Seq<char>) -> bool {
    sfx.len() <= s.len() && s.skip(s.len() - sfx.len()) == sfx
}

/// Whether `s` ends with the suffix `sfx`.
pub fn ends_with(s: &str, sfx: &str) -> (r: bool)
    ensures
        r == ends_with_spec(s@, sfx@),
{
    let sv = chars_of(s);
    let fv = chars_of(sfx);
    if fv.len() > sv.len() {
        return false;
    }
    let off: usize = sv.len() - fv.len();
    let mut k: usize = off;
    while k < sv.len()
        invariant
            sv@ == s@,
            fv@ == sfx@,
            fv@.len() <= sv@.len(),
            off == sv@.len() - fv@.len(),
            off <= k <= sv@.len(),
            forall|j: int| 0 <= j < k - off ==> sv@[off + j] == fv@[j],
        decreases sv.len() - k,
    {
        let i: usize = k - off;
        if sv[k] != fv[i] {
            proof {
                assert(s@.skip(s@.len() - sfx@.len())[i as int] == sv@[k as int]);
            }
            return false;
        }
        k = k + 1;
    }
    proof {
        assert(s@.skip(s@.len() - sfx@.len()) =~= sfx@);
    }
    true
}

/// Whether `a` and `b` hold the same characters.
pub fn str_eq(a: &str, b: &str) -> (r: bool)
    ensures
        r == (a@ == b@),
{
    let av = chars_of(a);
    let bv = chars_of(b);
    if av.len() != bv.len() {
        return false;
    }
    let mut i: usize = 0;
    while i < av.len()
        invariant
            av@ == a@,
            bv@ == b@,
            av@.len() == bv@.len(),
            i <= av@.len(),
            forall|j: int| 0 <= j < i ==> av@[j] == bv@[j],
        decreases av.len() - i,
    {
        if av[i] != bv[i] {
            return false;
        }
        i = i + 1;
    }
    proof {
        assert(a@ =~= b@);
    }
    true
}

/// The lines of `ls` joined with single newline separators.
pub open spec fn join_lines_spec(ls: Seq<Seq<char>>) -> Seq<char>
    decreases ls.len(),
{
    if ls.len() == 0 {
        Seq::empty()
    } else if ls.len() == 1 {
        ls[0]
    } else {
        ls[0] + seq!['\n'] + join_lines_spec(ls.skip(1))
    }
}

/// Joins the given lines with single newline separators.
pub fn join_lines(ls: &Vec<String>) -> (r: String)
    ensures
        r@ == join_lines_spec(ls.deep_view()),
{
    let mut r = String::new();
    if ls.len() == 0 {
        return r;
    }
    let mut i: usize = ls.len();
    let mut tail = ls[ls.len() - 1].clone();
    i = i - 1;
    while i > 0
        invariant
            i < ls.len(),
            tail@ == join_lines_spec(ls.deep_view().skip(i as int)),
        decreases i,
    {
        i = i - 1;
        let mut piece = ls[i].clone();
        push_char(&mut piece, '\n');
        piece.append(tail.as_str());
        proof {
            assert(ls.deep_view().skip(i as int)[0] == ls@[i as int]@);
            assert(ls.deep_view().skip(i as int).skip(1) =~= ls.deep_view().skip(i + 1));
            assert(piece@ =~= join_lines_spec(ls.deep_view().skip(i as int)));
        }
        tail = piece;
    }
    proof {
        assert(ls.deep_view().skip(0) =~= ls.deep_view());
    }
    tail
}

/// Three consecutive backticks begin at the front of `s`.
pub open spec fn starts_triple(s: Seq<char>) -> bool {
    s.len() >= 3 && s[0] == '`' && s[1] == '`' && s[2] == '`'
}

/// The backtick escape, scanning left to right: a backtick is escaped to
/// `\``  when it starts three consecutive backticks or continues a run of
/// already-escaped backticks; every other character is kept as it is.
pub open spec fn esc_backticks_rec(s: Seq<char>, prev_escaped: bool) -> Seq<char>
    decreases s.len(),
{
    if s.len() == 0 {
        Seq::empty()
    } else if s[0] == '`' && (prev_escaped || starts_triple(s)) {
        seq!['\\', '`'] + esc_backticks_rec(s.skip(1), true)
    } else {
        seq![s[0]] + esc_backticks_rec(s.skip(1), false)
    }
}

/// The source text with every triple-backtick run escaped.
pub open spec fn escape_backticks_spec(s: Seq<char>) -> Seq<char> {
    esc_backticks_rec(s, false)
}

/// No three consecutive backticks occur anywhere in `s`.
pub open spec fn no_triple_backtick(s: Seq<char>) -> bool {
    forall|i: int|
        0 <= i && i + 2 < s.len() ==> !(#[trigger] s[i] == '`' && s[i + 1] == '`' && s[i + 2]
            == '`')
}

/// Escapes triple-backtick runs in `s` so the result can sit inside a
/// fenced code block without terminating it.
pub fn escape_backticks(s: &str) -> (r: String)
    ensures
        r@ == escape_backticks_spec(s@),
{
    let cs = chars_of(s);
    let n = cs.len();
    let mut out = String::new();
    let mut prev: bool = false;
    let mut i: usize = 0;
    proof {
        assert(s@.skip(0) =~= s@);
    }
    while i < n
        invariant
            cs@ == s@,
            n == cs.len(),
            i <= n,
            out@ + esc_backticks_rec(s@.skip(i as int), prev) == escape_backticks_spec(s@),
        decreases n - i,
    {
        let ghost t = s@.skip(i as int);
        let ghost out0 = out@;
        let ghost prev0 = prev;
        let c = cs[i];
        let esc = c == '`' && (prev || (n - i > 2 && cs[i + 1] == '`' && cs[i + 2] == '`'));
        proof {
            assert(t.len() == n - i);
            assert(t[0] == s@[i as int]);
            if n - i > 2 {
                assert(t[1] == s@[i + 1]);
                assert(t[2] == s@[i + 2]);
            }
            assert(esc == (t[0] == '`' && (prev0 || starts_triple(t))));
        }
        if esc {
            push_char(&mut out, '\\');
            push_char(&mut out, '`');
        } else {
            push_char(&mut out, c);
        }
        prev = esc;
        i = i + 1;
        proof {
            assert(t.skip(1) =~= s@.skip(i as int));
            if esc {
                assert(out@ =~= out0 + seq!['\\', '`']);
                assert(esc_backticks_rec(t, prev0) == seq!['\\', '`'] + esc_backticks_rec(
                    t.skip(1),
                    true,
                ));
            } else {
                assert(out@ =~= out0 + seq![t[0]]);
                assert(esc_backticks_rec(t, prev0) == seq![t[0]] + esc_backticks_rec(
                    t.skip(1),
                    false,
                ));
            }
            assert(out@ + esc_backticks_rec(s@.skip(i as int), prev) =~= out0 + esc_backticks_rec(
                t,
                prev0,
            ));
        }
    }
    proof {
        assert(s@.skip(n as int) =~= Seq::<char>::empty());
        assert(out@ + esc_backticks_rec(Seq::<char>::empty(), prev) =~= out@);
    }
    out
}

/// The newline escape: each newline becomes the two characters `\n`.
pub open spec fn esc_newlines_rec(s: Seq<char>) -> Seq<char>
    decreases s.len(),
{
    if s.len() == 0 {
        Seq::empty()
    } else {
        (if s[0] == '\n' {
            seq!['\\', 'n']
        } else {
            seq![s[0]]
        }) + esc_newlines_rec(s.skip(1))
    }
}

/// Escapes every newline in `s` as the two characters `\n`.
pub fn escape_newlines(s: &str) -> (r: String)
    ensures
        r@ == esc_newlines_rec(s@),
{
    let cs = chars_of(s);
    let n = cs.len();
    let mut out = String::new();
    let mut i: usize = 0;
    proof {
        assert(s@.skip(0) =~= s@);
    }
    while i < n
        invariant
            cs@ == s@,
            n == cs.len(),
            i <= n,
            out@ + esc_newlines_rec(s@.skip(i as int)) == esc_newlines_rec(s@),
        decreases n - i,
    {
        let ghost t = s@.skip(i as int);
        let ghost out0 = out@;
        let c = cs[i];
        proof {
            assert(t[0] == s@[i as int]);
        }
        if c == '\n' {
            push_char(&mut out, '\\');
            push_char(&mut out, 'n');
        } else {
            push_char(&mut out, c);
        }
        i = i + 1;
        proof {
            assert(t.skip(1) =~= s@.skip(i as int));
            if c == '\n' {
                assert(out@ =~= out0 + seq!['\\', 'n']);
            } else {
                assert(out@ =~= out0 + seq![t[0]]);
            }
            assert(out@ + esc_newlines_rec(s@.skip(i as int)) =~= out0 + esc_newlines_rec(t));
        }
    }
    proof {
        assert(s@.skip(n as int) =~= Seq::<char>::empty());
        assert(out@ + esc_newlines_rec(Seq::<char>::empty()) =~= out@);
    }
    out
}

/// The first character the backtick escape emits.
proof fn lemma_esc_first(s: Seq<char>, prev: bool)
    requires
        s.len() > 0,
    ensures
        esc_backticks_rec(s, prev).len() >= 1,
        esc_backticks_rec(s, prev)[0] == (if s[0] == '`' && (prev || starts_triple(s)) {
            '\\'
        } else {
            s[0]
        }),
{
    if s[0] == '`' && (prev || starts_triple(s)) {
        assert((seq!['\\', '`'] + esc_backticks_rec(s.skip(1), true))[0] == '\\');
    } else {
        assert((seq![s[0]] + esc_backticks_rec(s.skip(1), false))[0] == s[0]);
    }
}

proof fn lemma_esc_rec_no_triple(s: Seq<char>, prev: bool)
    ensures
        no_triple_backtick(esc_backticks_rec(s, prev)),
    decreases s.len(),
{
    if s.len() == 0 {
    } else {
        let s1 = s.skip(1);
        let r = esc_backticks_rec(s, prev);
        if s[0] == '`' && (prev || starts_triple(s)) {
            let rest = esc_backticks_rec(s1, true);
            lemma_esc_rec_no_triple(s1, true);
            assert(r == seq!['\\', '`'] + rest);
            assert forall|i: int| 0 <= i && i + 2 < r.len() implies !(#[trigger] r[i] == '`' && r[i + 1] == '`'
                && r[i + 2] == '`') by {
                if i == 0 {
                    assert(r[0] == '\\');
                } else if i == 1 {
                    assert(r[2] == rest[0]);
                    assert(s1.len() > 0);
                    lemma_esc_first(s1, true);
                    if s1[0] == '`' {
                        assert(rest[0] == '\\');
                    } else {
                        assert(rest[0] == s1[0]);
                    }
                } else {
                    assert(r[i] == rest[i - 2]);
                    assert(r[i + 1] == rest[i - 1]);
                    assert(r[i + 2] == rest[i]);
                }
            }
        } else {
            let rest = esc_backticks_rec(s1, false);
            lemma_esc_rec_no_triple(s1, false);
            assert(r == seq![s[0]] + rest);
            assert forall|i: int| 0 <= i && i + 2 < r.len() implies !(#[trigger] r[i] == '`' && r[i + 1] == '`'
                && r[i + 2] == '`') by {
                if i == 0 {
                    if s[0] == '`' {
                        assert(!starts_triple(s));
                        assert(r[1] == rest[0]);
                        assert(r[2] == rest[1]);
                        assert(s1.len() > 0);
                        lemma_esc_first(s1, false);
                        if s1[0] == '`' {
                            // `s` starts with two backticks, so its third
                            // character is not a backtick.
                            assert(s[1] == '`');
                            assert(!starts_triple(s1));
                            assert(rest[0] == '`');
                            let s2 = s1.skip(1);
                            assert(rest == seq![s1[0]] + esc_backticks_rec(s2, false));
                            if s2.len() == 0 {
                                assert(esc_backticks_rec(s2, false).len() == 0);
                                assert(rest.len() == 1);
                            } else {
                                lemma_esc_first(s2, false);
                                assert(rest[1] == esc_backticks_rec(s2, false)[0]);
                                assert(s2[0] == s[2]);
                                assert(s[2] != '`');
                                if s2[0] == '`' && starts_triple(s2) {
                                } else {
                                    assert(esc_backticks_rec(s2, false)[0] == s2[0]);
                                }
                            }
                        } else {
                            assert(rest[0] == s1[0]);
                        }
                    }
                } else {
                    assert(r[i] == rest[i - 1]);
                    assert(r[i + 1] == rest[i]);
                    assert(r[i + 2] == rest[i + 1]);
                }
            }
        }
    }
}

/// Law: escaping leaves no three consecutive backticks anywhere in the
/// text, so the escaped source cannot terminate the code fence that the
/// prompt embeds it in.
pub proof fn lemma_escape_backticks_no_triple(s: Seq<char>)
    ensures
        no_triple_backtick(escape_backticks_spec(s)),
{
    lemma_esc_rec_no_triple(s, false);
}

/// The first character the newline escape emits.
proof fn lemma_esc_newlines_first(s: Seq<char>)
    requires
        s.len() > 0,
    ensures
        esc_newlines_rec(s).len() >= 1,
        esc_newlines_rec(s)[0] == (if s[0] == '\n' {
            '\\'
        } else {
            s[0]
        }),
{
    if s[0] == '\n' {
        assert((seq!['\\', 'n'] + esc_newlines_rec(s.skip(1)))[0] == '\\');
    } else {
        assert((seq![s[0]] + esc_newlines_rec(s.skip(1)))[0] == s[0]);
    }
}

/// Law: escaping newlines afterwards cannot reintroduce a triple-backtick
/// run into text that has none.
pub proof fn lemma_escape_newlines_keeps_no_triple(s: Seq<char>)
    requires
        no_triple_backtick(s),
    ensures
        no_triple_backtick(esc_newlines_rec(s)),
    decreases s.len(),
{
    if s.len() == 0 {
    } else {
        let s1 = s.skip(1);
        let r = esc_newlines_rec(s);
        let rest = esc_newlines_rec(s1);
        assert forall|i: int| 0 <= i && i + 2 < s1.len() implies !(#[trigger] s1[i] == '`' && s1[i + 1] == '`'
            && s1[i + 2] == '`') by {
            assert(s1[i] == s[i + 1]);
            assert(s1[i + 1] == s[i + 2]);
            assert(s1[i + 2] == s[i + 3]);
        }
        lemma_escape_newlines_keeps_no_triple(s1);
        if s[0] == '\n' {
            assert(r == seq!['\\', 'n'] + rest);
            assert forall|i: int| 0 <= i && i + 2 < r.len() implies !(#[trigger] r[i] == '`' && r[i + 1] == '`'
                && r[i + 2] == '`') by {
                if i == 0 {
                    assert(r[0] == '\\');
                } else if i == 1 {
                    assert(r[1] == 'n');
                } else {
                    assert(r[i] == rest[i - 2]);
                    assert(r[i + 1] == rest[i - 1]);
                    assert(r[i + 2] == rest[i]);
                }
            }
        } else {
            assert(r == seq![s[0]] + rest);
            assert forall|i: int| 0 <= i && i + 2 < r.len() implies !(#[trigger] r[i] == '`' && r[i + 1] == '`'
                && r[i + 2] == '`') by {
                if i == 0 {
                    if s[0] == '`' {
                        assert(r[1] == rest[0]);
                        assert(r[2] == rest[1]);
                        assert(s1.len() > 0);
                        lemma_esc_newlines_first(s1);
                        if rest[0] == '`' {
                            assert(s1[0] == '`');
                            let s2 = s1.skip(1);
                            assert(rest == seq![s1[0]] + esc_newlines_rec(s2));
                            if s2.len() == 0 {
                                assert(esc_newlines_rec(s2).len() == 0);
                                assert(rest.len() == 1);
                            } else {
                                lemma_esc_newlines_first(s2);
                                assert(rest[1] == esc_newlines_rec(s2)[0]);
                                if rest[1] == '`' {
                                    assert(s2[0] == '`');
                                    assert(s[1] == '`' && s[2] == '`');
                                }
                            }
                        }
                    }
                } else {
                    assert(r[i] == rest[i - 1]);
                    assert(r[i + 1] == rest[i]);
                    assert(r[i + 2] == rest[i + 1]);
                }
            }
        }
    }
}

} // verus!
