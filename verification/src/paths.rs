//! The path grammar of the library.
//!
//! Paths are plain strings whose components are separated by `/`.  A
//! component is a maximal run of non-separator characters; empty runs do
//! not count as components.  The *name* of a path is its last component,
//! and a path made of separators alone (or the empty path) has no name.

use vstd::prelude::*;

verus! {

/// Whitespace, as the blank-path test understands it: the characters of
/// Unicode's `White_Space` category.
pub open spec fn spec_is_space(c: char) -> bool {
    let u = c as u32;
    (0x09 <= u && u <= 0x0D) || u == 0x20 || u == 0x85 || u == 0xA0 || u == 0x1680
        || (0x2000 <= u && u <= 0x200A) || u == 0x2028 || u == 0x2029 || u == 0x202F
        || u == 0x205F || u == 0x3000
}

/// A blank path: nothing but whitespace (the empty path included).
pub open spec fn is_blank(s: Seq<char>) -> bool {
    forall|i: int| 0 <= i < s.len() ==> spec_is_space(s[i])
}

/// The longest run of non-separator characters at the end of `p`.
pub open spec fn nonsep_suffix(p: Seq<char>) -> Seq<char>
    decreases p.len(),
{
    if p.len() == 0 || p.last() == '/' {
        Seq::empty()
    } else {
        nonsep_suffix(p.drop_last()).push(p.last())
    }
}

/// `p` with every trailing separator removed.
pub open spec fn trim_trailing_seps(p: Seq<char>) -> Seq<char>
    decreases p.len(),
{
    if p.len() > 0 && p.last() == '/' {
        trim_trailing_seps(p.drop_last())
    } else {
        p
    }
}

/// The name of a path: its last component, if the path has one.
pub open spec fn name_of(p: Seq<char>) -> Option<Seq<char>> {
    let t = trim_trailing_seps(p);
    if t.len() == 0 {
        None
    } else {
        Some(nonsep_suffix(t))
    }
}

/// The components of the part of a path still to be read, with `cur` the
/// component begun just before it.
pub open spec fn split_acc(p: Seq<char>, cur: Seq<char>) -> Seq<Seq<char>>
    decreases p.len(),
{
    if p.len() == 0 {
        if cur.len() > 0 {
            seq![cur]
        } else {
            Seq::empty()
        }
    } else if p[0] == '/' {
        (if cur.len() > 0 {
            seq![cur]
        } else {
            Seq::empty()
        }) + split_acc(p.drop_first(), Seq::empty())
    } else {
        split_acc(p.drop_first(), cur.push(p[0]))
    }
}

/// The components of a path, in order.
pub open spec fn components(p: Seq<char>) -> Seq<Seq<char>> {
    split_acc(p, Seq::empty())
}

/// `name` appended to the path `p` as one more component.
pub open spec fn spec_join(p: Seq<char>, name: Seq<char>) -> Seq<char> {
    if p.len() == 0 || p.last() == '/' {
        p + name
    } else {
        p + seq!['/'] + name
    }
}

/// A plain base name: non-empty and free of separators, as every name a
/// filesystem lists is.
pub open spec fn plain_name(n: Seq<char>) -> bool {
    n.len() > 0 && forall|k: int| 0 <= k < n.len() ==> n[k] != '/'
}

/// Whitespace test on one character.
pub fn is_space(c: char) -> (r: bool)
    ensures
        r == spec_is_space(c),
{
    let u = c as u32;
    (0x09 <= u && u <= 0x0D) || u == 0x20 || u == 0x85 || u == 0xA0 || u == 0x1680
        || (0x2000 <= u && u <= 0x200A) || u == 0x2028 || u == 0x2029 || u == 0x202F
        || u == 0x205F || u == 0x3000
}

/// Blank test on a path string.
pub fn is_blank_str(s: &str) -> (r: bool)
    ensures
        r == is_blank(s@),
{
    let n = s.unicode_len();
    let mut i: usize = 0;
    while i < n
        invariant
            0 <= i <= n,
            n == s@.len(),
            forall|j: int| 0 <= j < i ==> spec_is_space(s@[j]),
        decreases n - i,
    {
        if !is_space(s.get_char(i)) {
            return false;
        }
        i += 1;
    }
    true
}

/// Character-for-character string equality.
pub fn str_eq(a: &str, b: &str) -> (r: bool)
    ensures
        r == (a@ == b@),
{
    let na = a.unicode_len();
    let nb = b.unicode_len();
    if na != nb {
        return false;
    }
    let mut i: usize = 0;
    while i < na
        invariant
            0 <= i <= na,
            na == a@.len(),
            na == b@.len(),
            forall|j: int| 0 <= j < i ==> a@[j] == b@[j],
        decreases na - i,
    {
        if a.get_char(i) != b.get_char(i) {
            return false;
        }
        i += 1;
    }
    proof {
        assert(a@ =~= b@);
    }
    true
}

/// The non-separator suffix of `q` is exactly `q` from `s` on, when
/// everything from `s` on is free of separators and `s` sits right after
/// one (or at the start).
proof fn lemma_nonsep_suffix_tail(q: Seq<char>, s: int)
    requires
        0 <= s <= q.len(),
        forall|i: int| s <= i < q.len() ==> q[i] != '/',
        s == 0 || q[s - 1] == '/',
    ensures
        nonsep_suffix(q) == q.subrange(s, q.len() as int),
    decreases q.len(),
{
    if s == q.len() {
        if q.len() == 0 {
            assert(nonsep_suffix(q) =~= q.subrange(s, q.len() as int));
        } else {
            assert(q.last() == '/');
            assert(nonsep_suffix(q) =~= q.subrange(s, q.len() as int));
        }
    } else {
        assert(q.last() != '/');
        lemma_nonsep_suffix_tail(q.drop_last(), s);
        assert(q.drop_last().subrange(s, q.len() - 1) =~= q.subrange(s, q.len() - 1));
        assert(nonsep_suffix(q) =~= q.subrange(s, q.len() as int));
    }
}

/// Appending a separator-free, non-empty `n` to a path that is empty or
/// ends in a separator gives a path named `n`.
pub proof fn lemma_name_of_append(x: Seq<char>, n: Seq<char>)
    requires
        n.len() > 0,
        forall|i: int| 0 <= i < n.len() ==> n[i] != '/',
        x.len() == 0 || x.last() == '/',
    ensures
        name_of(x + n) == Some(n),
    decreases n.len(),
{
    let q = x + n;
    assert(q.last() == n.last());
    assert(trim_trailing_seps(q) == q);
    if n.len() == 1 {
        assert(q.drop_last() =~= x);
        if x.len() == 0 {
            assert(nonsep_suffix(x) =~= Seq::<char>::empty());
        } else {
            assert(nonsep_suffix(x) =~= Seq::<char>::empty());
        }
        assert(nonsep_suffix(q) =~= n);
    } else {
        let nd = n.drop_last();
        lemma_name_of_append(x, nd);
        let qd = x + nd;
        assert(trim_trailing_seps(qd) == qd);
        assert(nonsep_suffix(qd) == nd);
        assert(q.drop_last() =~= qd);
        assert(nonsep_suffix(q) =~= n);
    }
}

/// Joining a separator-free, non-empty `name` onto any path gives a path
/// named `name`.
pub proof fn lemma_join_name(p: Seq<char>, n: Seq<char>)
    requires
        n.len() > 0,
        forall|i: int| 0 <= i < n.len() ==> n[i] != '/',
    ensures
        name_of(spec_join(p, n)) == Some(n),
{
    if p.len() == 0 || p.last() == '/' {
        lemma_name_of_append(p, n);
    } else {
        let x = p + seq!['/'];
        assert(x.last() == '/');
        lemma_name_of_append(x, n);
        assert(spec_join(p, n) =~= x + n);
        assert(name_of(spec_join(p, n)) == name_of(x + n));
    }
}

/// The name of a path string: its last component.
pub fn name_of_str(p: &str) -> (r: Option<String>)
    ensures
        r is Some <==> name_of(p@) is Some,
        r matches Some(s) ==> name_of(p@) == Some(s@),
{
    let n = p.unicode_len();
    let mut e = n;
    proof {
        assert(p@.subrange(0, n as int) =~= p@);
    }
    while e > 0 && p.get_char(e - 1) == '/'
        invariant
            0 <= e <= n,
            n == p@.len(),
            trim_trailing_seps(p@) == trim_trailing_seps(p@.subrange(0, e as int)),
        decreases e,
    {
        proof {
            let t = p@.subrange(0, e as int);
            assert(t.last() == '/');
            assert(t.drop_last() =~= p@.subrange(0, e as int - 1));
        }
        e -= 1;
    }
    proof {
        assert(p@.subrange(0, 0) =~= Seq::<char>::empty());
    }
    if e == 0 {
        return None;
    }
    proof {
        let t = p@.subrange(0, e as int);
        assert(t.last() != '/');
        assert(trim_trailing_seps(t) == t);
    }
    let mut s = e;
    while s > 0 && p.get_char(s - 1) != '/'
        invariant
            0 <= s <= e <= n,
            n == p@.len(),
            forall|j: int| s <= j < e ==> p@[j] != '/',
        decreases s,
    {
        s -= 1;
    }
    proof {
        let t = p@.subrange(0, e as int);
        lemma_nonsep_suffix_tail(t, s as int);
        assert(t.subrange(s as int, e as int) =~= p@.subrange(s as int, e as int));
    }
    Some(String::from_str(p.substring_char(s, e)))
}

/// Join a name onto a path string as one more component.
pub fn join(p: &str, name: &str) -> (r: String)
    ensures
        r@ == spec_join(p@, name@),
{
    let n = p.unicode_len();
    let mut out = String::from_str(p);
    if n > 0 && p.get_char(n - 1) != '/' {
        out.append("/");
        proof {
            reveal_strlit("/");
            assert(("/")@ =~= seq!['/']);
        }
    }
    out.append(name);
    proof {
        assert(out@ =~= spec_join(p@, name@));
    }
    out
}

/// Split a path string into its components.
pub fn split(p: &str) -> (r: Vec<String>)
    ensures
        r.deep_view() == components(p@),
{
    let n = p.unicode_len();
    let mut out: Vec<String> = Vec::new();
    let mut start: usize = 0;
    let mut i: usize = 0;
    proof {
        assert(p@.subrange(0, n as int) =~= p@);
        assert(p@.subrange(0, 0) =~= Seq::<char>::empty());
        assert(out.deep_view() =~= Seq::<Seq<char>>::empty());
    }
    while i < n
        invariant
            0 <= start <= i <= n,
            n == p@.len(),
            forall|j: int| start <= j < i ==> p@[j] != '/',
            components(p@) == out.deep_view() + split_acc(
                p@.subrange(i as int, n as int),
                p@.subrange(start as int, i as int),
            ),
        decreases n - i,
    {
        let ghost rem = p@.subrange(i as int, n as int);
        let ghost cur = p@.subrange(start as int, i as int);
        proof {
            assert(rem[0] == p@[i as int]);
            assert(rem.drop_first() =~= p@.subrange(i as int + 1, n as int));
        }
        let c = p.get_char(i);
        if c == '/' {
            if start < i {
                let piece = String::from_str(p.substring_char(start, i));
                let ghost pre = out.deep_view();
                out.push(piece);
                proof {
                    assert(out.deep_view() =~= pre.push(cur));
                    assert(pre.push(cur) =~= pre + seq![cur]);
                }
            }
            start = i + 1;
        } else {
            proof {
                assert(cur.push(p@[i as int]) =~= p@.subrange(start as int, i as int + 1));
            }
        }
        i += 1;
        proof {
            assert(p@.subrange(i as int, i as int) =~= Seq::<char>::empty());
        }
    }
    proof {
        let cur = p@.subrange(start as int, n as int);
        assert(p@.subrange(n as int, n as int) =~= Seq::<char>::empty());
        assert(split_acc(Seq::<char>::empty(), cur) == if cur.len() > 0 {
            seq![cur]
        } else {
            Seq::<Seq<char>>::empty()
        });
    }
    if start < n {
        let piece = String::from_str(p.substring_char(start, n));
        let ghost pre = out.deep_view();
        out.push(piece);
        proof {
            let cur = p@.subrange(start as int, n as int);
            assert(out.deep_view() =~= pre.push(cur));
            assert(pre.push(cur) =~= pre + seq![cur]);
        }
    }
    proof {
        assert(components(p@) =~= out.deep_view());
    }
    out
}

} // verus!
