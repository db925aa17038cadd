//! Helpers around the external build tool's invocation: compiler-flag
//! deduplication and the option/flag plumbing the full resolution pass needs.

use vstd::prelude::*;
use vstd::string::{StrSliceExecFns, StringExecFns};

verus! {

/// The Unicode `White_Space` characters, the separators that splitting a
/// flag string on whitespace recognises.
pub open spec fn flag_ws(c: char) -> bool {
    let u = c as u32;
    ||| u == 0x9
    ||| u == 0xA
    ||| u == 0xB
    ||| u == 0xC
    ||| u == 0xD
    ||| u == 0x20
    ||| u == 0x85
    ||| u == 0xA0
    ||| u == 0x1680
    ||| (0x2000 <= u && u <= 0x200A)
    ||| u == 0x2028
    ||| u == 0x2029
    ||| u == 0x202F
    ||| u == 0x205F
    ||| u == 0x3000
}

fn is_flag_ws(c: char) -> (r: bool)
    ensures
        r == flag_ws(c),
{
    let u = c as u32;
    u == 0x9 || u == 0xA || u == 0xB || u == 0xC || u == 0xD || u == 0x20 || u == 0x85 || u == 0xA0
        || u == 0x1680 || (0x2000 <= u && u <= 0x200A) || u == 0x2028 || u == 0x2029 || u == 0x202F
        || u == 0x205F || u == 0x3000
}

/// The characters of a string, for character-level processing.
pub(crate) fn str_chars(s: &str) -> (r: Vec<char>)
    ensures
        r@ == s@,
{
    let n = s.unicode_len();
    let mut r: Vec<char> = Vec::new();
    let mut i: usize = 0;
    while i < n
        invariant
            n == s@.len(),
            0 <= i <= n,
            r@ =~= s@.take(i as int),
        decreases n - i,
    {
        r.push(s.get_char(i));
        i += 1;
        proof {
            assert(r@ =~= s@.take(i as int));
        }
    }
    proof {
        assert(s@.take(n as int) =~= s@);
    }
    r
}

fn copy_chars(v: &Vec<char>) -> (r: Vec<char>)
    ensures
        r@ == v@,
{
    let mut r: Vec<char> = Vec::new();
    let mut i: usize = 0;
    while i < v.len()
        invariant
            0 <= i <= v@.len(),
            r@ =~= v@.take(i as int),
        decreases v@.len() - i,
    {
        r.push(v[i]);
        i += 1;
        proof {
            assert(r@ =~= v@.take(i as int));
        }
    }
    proof {
        assert(v@.take(v@.len() as int) =~= v@);
    }
    r
}

/// Whitespace splitting as a left fold: position `i` in the string, the
/// token being accumulated, and the tokens found so far.
pub open spec fn split_ws_from(
    s: Seq<char>,
    i: int,
    cur: Seq<char>,
    acc: Seq<Seq<char>>,
) -> Seq<Seq<char>>
    decreases s.len() - i,
{
    if i < 0 || i >= s.len() {
        if cur.len() > 0 {
            acc.push(cur)
        } else {
            acc
        }
    } else if flag_ws(s[i]) {
        if cur.len() > 0 {
            split_ws_from(s, i + 1, Seq::empty(), acc.push(cur))
        } else {
            split_ws_from(s, i + 1, Seq::empty(), acc)
        }
    } else {
        split_ws_from(s, i + 1, cur.push(s[i]), acc)
    }
}

/// The whitespace-separated tokens of a string, each non-empty.
pub open spec fn split_ws(s: Seq<char>) -> Seq<Seq<char>> {
    split_ws_from(s, 0, Seq::empty(), Seq::empty())
}

#[verifier::loop_isolation(false)]
fn split_whitespace_chars(s: &Vec<char>) -> (r: Vec<Vec<char>>)
    ensures
        r.deep_view() == split_ws(s@),
{
    let mut acc: Vec<Vec<char>> = Vec::new();
    let mut cur: Vec<char> = Vec::new();
    let mut i: usize = 0;
    proof {
        assert(acc.deep_view() =~~= Seq::<Seq<char>>::empty());
    }
    while i < s.len()
        invariant
            0 <= i <= s@.len(),
            split_ws_from(s@, i as int, cur@, acc.deep_view()) == split_ws(s@),
        decreases s@.len() - i,
    {
        let ghost acc0 = acc.deep_view();
        let ghost cur0 = cur@;
        if is_flag_ws(s[i]) {
            if cur.len() > 0 {
                acc.push(cur);
                cur = Vec::new();
                proof {
                    assert(acc.deep_view() =~~= acc0.push(cur0));
                    assert(split_ws_from(s@, i as int, cur0, acc0) == split_ws_from(
                        s@,
                        i + 1,
                        cur@,
                        acc.deep_view(),
                    ));
                }
            } else {
                proof {
                    assert(cur0 =~= Seq::<char>::empty());
                    assert(split_ws_from(s@, i as int, cur0, acc0) == split_ws_from(
                        s@,
                        i + 1,
                        cur@,
                        acc.deep_view(),
                    ));
                }
            }
        } else {
            cur.push(s[i]);
            proof {
                assert(split_ws_from(s@, i as int, cur0, acc0) == split_ws_from(
                    s@,
                    i + 1,
                    cur@,
                    acc.deep_view(),
                ));
            }
        }
        i += 1;
    }
    if cur.len() > 0 {
        let ghost acc0 = acc.deep_view();
        let ghost cur0 = cur@;
        acc.push(cur);
        proof {
            assert(acc.deep_view() =~~= acc0.push(cur0));
        }
    }
    acc
}

/// Strict lexicographic order on character sequences by code point — the
/// order string keys sort in.
pub open spec fn lex_lt(a: Seq<char>, b: Seq<char>) -> bool
    decreases a.len(),
{
    if b.len() == 0 {
        false
    } else if a.len() == 0 {
        true
    } else if (a[0] as u32) < (b[0] as u32) {
        true
    } else if a[0] == b[0] {
        lex_lt(a.drop_first(), b.drop_first())
    } else {
        false
    }
}

#[verifier::loop_isolation(false)]
fn lex_lt_chars(a: &Vec<char>, b: &Vec<char>) -> (r: bool)
    ensures
        r == lex_lt(a@, b@),
{
    let mut i: usize = 0;
    proof {
        assert(a@.skip(0) =~= a@);
        assert(b@.skip(0) =~= b@);
    }
    while i < a.len() && i < b.len()
        invariant
            0 <= i <= a@.len(),
            0 <= i <= b@.len(),
            lex_lt(a@, b@) == lex_lt(a@.skip(i as int), b@.skip(i as int)),
        decreases a@.len() - i,
    {
        let ca = a[i];
        let cb = b[i];
        proof {
            assert(a@.skip(i as int)[0] == a@[i as int]);
            assert(b@.skip(i as int)[0] == b@[i as int]);
            assert(a@.skip(i as int).drop_first() =~= a@.skip(i + 1));
            assert(b@.skip(i as int).drop_first() =~= b@.skip(i + 1));
        }
        if (ca as u32) < (cb as u32) {
            return true;
        }
        if ca != cb {
            return false;
        }
        i += 1;
    }
    proof {
        if i >= a.len() {
            assert(a@.skip(i as int) =~= Seq::<char>::empty());
        } else {
            assert(b@.skip(i as int) =~= Seq::<char>::empty());
        }
    }
    a.len() < b.len()
}

#[verifier::loop_isolation(false)]
fn eq_chars(a: &Vec<char>, b: &Vec<char>) -> (r: bool)
    ensures
        r == (a@ == b@),
{
    if a.len() != b.len() {
        return false;
    }
    let mut i: usize = 0;
    while i < a.len()
        invariant
            a@.len() == b@.len(),
            0 <= i <= a@.len(),
            forall|j: int| 0 <= j < i ==> a@[j] == b@[j],
        decreases a@.len() - i,
    {
        if a[i] != b[i] {
            return false;
        }
        i += 1;
    }
    proof {
        assert(a@ =~= b@);
    }
    true
}

/// Index of the first `=` in a token, from position `i`; negative if none.
pub open spec fn find_eq_from(t: Seq<char>, i: int) -> int
    decreases t.len() - i,
{
    if i < 0 || i >= t.len() {
        -1
    } else if t[i] == '=' {
        i
    } else {
        find_eq_from(t, i + 1)
    }
}

#[verifier::loop_isolation(false)]
fn find_eq(t: &Vec<char>) -> (r: Option<usize>)
    ensures
        r matches Some(e) ==> e < t@.len() && find_eq_from(t@, 0) == e as int,
        r is None ==> find_eq_from(t@, 0) < 0,
{
    let mut i: usize = 0;
    while i < t.len()
        invariant
            0 <= i <= t@.len(),
            find_eq_from(t@, 0) == find_eq_from(t@, i as int),
        decreases t@.len() - i,
    {
        if t[i] == '=' {
            return Some(i);
        }
        i += 1;
    }
    None
}

/// Inserting a flag into the key-ordered association list: an existing key
/// keeps its place and takes the newer value (last value wins); a new key
/// lands before the first greater key, keeping the list ordered as string
/// keys sort.
pub open spec fn insert_flag(
    acc: Seq<(Seq<char>, Seq<char>)>,
    k: Seq<char>,
    v: Seq<char>,
) -> Seq<(Seq<char>, Seq<char>)>
    decreases acc.len(),
{
    if acc.len() == 0 {
        seq![(k, v)]
    } else if k == acc[0].0 {
        seq![(k, v)] + acc.drop_first()
    } else if lex_lt(k, acc[0].0) {
        seq![(k, v)] + acc
    } else {
        seq![acc[0]] + insert_flag(acc.drop_first(), k, v)
    }
}

proof fn lemma_insert_flag_at(acc: Seq<(Seq<char>, Seq<char>)>, k: Seq<char>, v: Seq<char>, j: int)
    requires
        0 <= j <= acc.len(),
        forall|m: int| 0 <= m < j ==> (#[trigger] acc[m]).0 != k && !lex_lt(k, acc[m].0),
    ensures
        j < acc.len() && k == acc[j].0 ==> insert_flag(acc, k, v) == acc.update(j, (k, v)),
        j < acc.len() && k != acc[j].0 && lex_lt(k, acc[j].0) ==> insert_flag(acc, k, v)
            == acc.insert(j, (k, v)),
        j == acc.len() && (forall|m: int|
            0 <= m < acc.len() ==> (#[trigger] acc[m]).0 != k && !lex_lt(k, acc[m].0))
            ==> insert_flag(acc, k, v) == acc.push((k, v)),
    decreases acc.len(),
{
    if j == 0 {
        if acc.len() == 0 {
            assert(insert_flag(acc, k, v) =~= acc.push((k, v)));
        } else if k == acc[0].0 {
            assert(seq![(k, v)] + acc.drop_first() =~= acc.update(0, (k, v)));
        } else if lex_lt(k, acc[0].0) {
            assert(seq![(k, v)] + acc =~= acc.insert(0, (k, v)));
        }
    } else {
        let t = acc.drop_first();
        assert(forall|m: int| 0 <= m < t.len() ==> t[m] == acc[m + 1]);
        lemma_insert_flag_at(t, k, v, j - 1);
        assert(acc[0].0 != k && !lex_lt(k, acc[0].0));
        assert(insert_flag(acc, k, v) == seq![acc[0]] + insert_flag(t, k, v));
        if j < acc.len() && k == acc[j].0 {
            assert(t[j - 1].0 == k);
            assert(seq![acc[0]] + t.update(j - 1, (k, v)) =~= acc.update(j, (k, v)));
        } else if j < acc.len() && lex_lt(k, acc[j].0) {
            assert(t[j - 1] == acc[j]);
            assert(seq![acc[0]] + t.insert(j - 1, (k, v)) =~= acc.insert(j, (k, v)));
        } else if j == acc.len() && (forall|m: int|
            0 <= m < acc.len() ==> (#[trigger] acc[m]).0 != k && !lex_lt(k, acc[m].0)) {
            assert(forall|m: int| 0 <= m < t.len() ==> (#[trigger] t[m]).0 != k && !lex_lt(k, t[m].0));
            assert(seq![acc[0]] + t.push((k, v)) =~= acc.push((k, v)));
        }
    }
}

/// Inserts into the flag list held as a vector, mirroring [`insert_flag`].
#[verifier::loop_isolation(false)]
fn insert_flag_vec(acc: &mut Vec<(Vec<char>, Vec<char>)>, k: Vec<char>, v: Vec<char>)
    ensures
        final(acc).deep_view() == insert_flag(old(acc).deep_view(), k@, v@),
{
    let ghost a0 = acc.deep_view();
    let mut j: usize = 0;
    while j < acc.len()
        invariant
            0 <= j <= acc@.len(),
            acc.deep_view() == a0,
            forall|m: int| 0 <= m < j ==> (#[trigger] a0[m]).0 != k@ && !lex_lt(k@, a0[m].0),
        decreases acc@.len() - j,
    {
        let hit = eq_chars(&acc[j].0, &k);
        proof {
            assert(acc@[j as int].0@ == a0[j as int].0);
        }
        if hit {
            proof {
                lemma_insert_flag_at(a0, k@, v@, j as int);
            }
            acc[j] = (k, v);
            proof {
                assert(acc.deep_view() =~~= a0.update(j as int, (k@, v@)));
            }
            return ;
        }
        let lt = lex_lt_chars(&k, &acc[j].0);
        if lt {
            proof {
                lemma_insert_flag_at(a0, k@, v@, j as int);
            }
            acc.insert(j, (k, v));
            proof {
                assert(acc.deep_view() =~~= a0.insert(j as int, (k@, v@)));
            }
            return ;
        }
        j += 1;
    }
    proof {
        lemma_insert_flag_at(a0, k@, v@, acc@.len() as int);
    }
    acc.push((k, v));
    proof {
        assert(acc.deep_view() =~~= a0.push((k@, v@)));
    }
}

proof fn lemma_chars_view(v: Vec<char>)
    ensures
        v.deep_view() == v@,
{
    assert(v.deep_view() =~= v@);
}

fn take_chars(v: &Vec<char>, n: usize) -> (r: Vec<char>)
    requires
        n <= v@.len(),
    ensures
        r@ == v@.take(n as int),
{
    let mut r: Vec<char> = Vec::new();
    let mut i: usize = 0;
    while i < n
        invariant
            0 <= i <= n <= v@.len(),
            r@ =~= v@.take(i as int),
        decreases n - i,
    {
        r.push(v[i]);
        i += 1;
        proof {
            assert(r@ =~= v@.take(i as int));
        }
    }
    proof {
        assert(r@ =~= v@.take(n as int));
    }
    r
}

fn skip_chars(v: &Vec<char>, n: usize) -> (r: Vec<char>)
    requires
        n <= v@.len(),
    ensures
        r@ == v@.skip(n as int),
{
    let mut r: Vec<char> = Vec::new();
    let mut i: usize = n;
    while i < v.len()
        invariant
            n <= i <= v@.len(),
            r@ =~= v@.subrange(n as int, i as int),
        decreases v@.len() - i,
    {
        r.push(v[i]);
        i += 1;
        proof {
            assert(r@ =~= v@.subrange(n as int, i as int));
        }
    }
    proof {
        assert(r@ =~= v@.skip(n as int));
    }
    r
}

/// A token carrying no flag is merged into the entry with the empty key —
/// which, being least in the key order, always sits at the front — with a
/// space before it.
pub open spec fn append_plain(
    acc: Seq<(Seq<char>, Seq<char>)>,
    t: Seq<char>,
) -> Seq<(Seq<char>, Seq<char>)> {
    if acc.len() > 0 && acc[0].0.len() == 0 {
        seq![(acc[0].0, acc[0].1 + seq![' '] + t)] + acc.drop_first()
    } else {
        seq![(Seq::<char>::empty(), seq![' '] + t)] + acc
    }
}

/// The token at `i` is a two-byte flag such as `-Z` whose argument follows
/// as the next token, to be handled as if written together (`-Zfoo`).
pub open spec fn merge_cond(toks: Seq<Seq<char>>, i: int) -> bool {
    let t = toks[i];
    &&& t.len() == 2
    &&& t[0] == '-'
    &&& t[1] != '-'
    &&& (t[1] as u32) < 128
    &&& i + 1 < toks.len()
    &&& !(toks[i + 1].len() > 0 && toks[i + 1][0] == '-')
}

pub open spec fn starts_dash(t: Seq<char>) -> bool {
    t.len() > 0 && t[0] == '-'
}

/// One pass over the token list, from position `i`, building the flag list:
/// a `-X value` pair is joined; a flag with `=` keys on its prefix up to and
/// including the first `=`; a flag followed by a non-flag token takes it as
/// its value; a bare flag gets an empty value; anything else is a standalone
/// argument collected under the empty key. A later flag with the same key
/// replaces the earlier value.
pub open spec fn flag_fold(
    toks: Seq<Seq<char>>,
    i: int,
    acc: Seq<(Seq<char>, Seq<char>)>,
) -> Seq<(Seq<char>, Seq<char>)>
    decreases toks.len() - i,
{
    if i < 0 || i >= toks.len() {
        acc
    } else {
        let m = merge_cond(toks, i);
        let t = if m {
            toks[i] + toks[i + 1]
        } else {
            toks[i]
        };
        let j = if m {
            i + 2
        } else {
            i + 1
        };
        if starts_dash(t) {
            let e = find_eq_from(t, 0);
            if e >= 0 {
                flag_fold(toks, j, insert_flag(acc, t.take(e + 1), t.skip(e + 1)))
            } else if j < toks.len() && !starts_dash(toks[j]) {
                flag_fold(toks, j + 1, insert_flag(acc, t, toks[j]))
            } else {
                flag_fold(toks, j, insert_flag(acc, t, Seq::empty()))
            }
        } else {
            flag_fold(toks, j, append_plain(acc, t))
        }
    }
}

/// How one deduplicated flag prints: standalone arguments as collected; a
/// keyed flag after a space, its value joined directly after a `=` key and
/// after a space otherwise.
pub open spec fn render_entry(k: Seq<char>, v: Seq<char>) -> Seq<char> {
    if k.len() == 0 {
        v
    } else {
        let base = seq![' '] + k;
        if v.len() > 0 {
            if k.last() == '=' {
                base + v
            } else {
                base + seq![' '] + v
            }
        } else {
            base
        }
    }
}

pub open spec fn render_from(
    acc: Seq<(Seq<char>, Seq<char>)>,
    i: int,
    out: Seq<char>,
) -> Seq<char>
    decreases acc.len() - i,
{
    if i < 0 || i >= acc.len() {
        out
    } else {
        render_from(acc, i + 1, out + render_entry(acc[i].0, acc[i].1))
    }
}

/// What deduplicating a flag string produces: its whitespace-separated
/// tokens folded into a key-ordered flag list where the last value for a key
/// wins, printed back in key order.
pub open spec fn dedup_flags_spec(s: Seq<char>) -> Seq<char> {
    render_from(flag_fold(split_ws(s), 0, Seq::empty()), 0, Seq::empty())
}

fn append_plain_vec(acc: &mut Vec<(Vec<char>, Vec<char>)>, t: Vec<char>)
    ensures
        final(acc).deep_view() == append_plain(old(acc).deep_view(), t@),
{
    let ghost a0 = acc.deep_view();
    let has_plain = acc.len() > 0 && acc[0].0.len() == 0;
    if has_plain {
        let mut e = acc.remove(0);
        e.1.push(' ');
        let mut tv = t;
        e.1.append(&mut tv);
        acc.insert(0, e);
        proof {
            assert(a0[0].0.len() == 0);
            assert(acc.deep_view() =~~= seq![(a0[0].0, a0[0].1 + seq![' '] + t@)]
                + a0.drop_first());
        }
    } else {
        let mut v: Vec<char> = Vec::new();
        v.push(' ');
        let mut tv = t;
        v.append(&mut tv);
        let empty_key: Vec<char> = Vec::new();
        acc.insert(0, (empty_key, v));
        proof {
            assert(acc.deep_view() =~~= seq![(Seq::<char>::empty(), seq![' '] + t@)] + a0);
        }
    }
}

/// Relies on `String: FromIterator<char>`: collecting characters yields the
/// string of exactly those characters, in order.
#[verifier::external_body]
fn chars_to_string(v: &Vec<char>) -> (r: String)
    ensures
        r@ == v@,
{
    v.iter().collect()
}

/// Removes duplicate flags from a string of command-line flags, keeping the
/// last value given for each flag key; see [`dedup_flags_spec`].
#[verifier::loop_isolation(false)]
pub fn dedup_flags(flag_str: &str) -> (r: String)
    ensures
        r@ == dedup_flags_spec(flag_str@),
{
    let chars = str_chars(flag_str);
    let tokens = split_whitespace_chars(&chars);
    let ghost toks = tokens.deep_view();
    let mut acc: Vec<(Vec<char>, Vec<char>)> = Vec::new();
    let mut i: usize = 0;
    proof {
        assert(acc.deep_view() =~~= Seq::<(Seq<char>, Seq<char>)>::empty());
    }
    while i < tokens.len()
        invariant
            0 <= i <= toks.len(),
            flag_fold(toks, i as int, acc.deep_view()) == flag_fold(toks, 0, Seq::empty()),
        decreases toks.len() - i,
    {
        let ghost acc0 = acc.deep_view();
        proof {
            lemma_chars_view(tokens@[i as int]);
        }
        let merged = tokens[i].len() == 2 && tokens[i][0] == '-' && tokens[i][1] != '-' && (
        tokens[i][1] as u32) < 128 && i < tokens.len() - 1 && !(tokens[i + 1].len() > 0 && tokens[i
            + 1][0] == '-');
        proof {
            if i + 1 < toks.len() {
                lemma_chars_view(tokens@[i + 1]);
            }
            assert(merged == merge_cond(toks, i as int));
        }
        let mut t = copy_chars(&tokens[i]);
        let j: usize;
        if merged {
            let mut t2 = copy_chars(&tokens[i + 1]);
            t.append(&mut t2);
            j = i + 2;
        } else {
            j = i + 1;
        }
        let ghost tv = t@;
        let ghost jj = j as int;
        proof {
            assert(tv == (if merge_cond(toks, i as int) {
                toks[i as int] + toks[i as int + 1]
            } else {
                toks[i as int]
            }));
        }
        if t.len() > 0 && t[0] == '-' {
            match find_eq(&t) {
                Option::Some(e) => {
                    let k = take_chars(&t, e + 1);
                    let v = skip_chars(&t, e + 1);
                    insert_flag_vec(&mut acc, k, v);
                    proof {
                        assert(flag_fold(toks, i as int, acc0) == flag_fold(
                            toks,
                            jj,
                            acc.deep_view(),
                        ));
                    }
                    i = j;
                },
                Option::None => {
                    let take_next = j < tokens.len() && !(tokens[j].len() > 0 && tokens[j][0]
                        == '-');
                    proof {
                        if jj < toks.len() {
                            lemma_chars_view(tokens@[jj]);
                        }
                    }
                    if take_next {
                        let v = copy_chars(&tokens[j]);
                        insert_flag_vec(&mut acc, t, v);
                        proof {
                            assert(flag_fold(toks, i as int, acc0) == flag_fold(
                                toks,
                                jj + 1,
                                acc.deep_view(),
                            ));
                        }
                        i = j + 1;
                    } else {
                        let empty_val: Vec<char> = Vec::new();
                        insert_flag_vec(&mut acc, t, empty_val);
                        proof {
                            assert(flag_fold(toks, i as int, acc0) == flag_fold(
                                toks,
                                jj,
                                acc.deep_view(),
                            ));
                        }
                        i = j;
                    }
                },
            }
        } else {
            append_plain_vec(&mut acc, t);
            proof {
                assert(flag_fold(toks, i as int, acc0) == flag_fold(toks, jj, acc.deep_view()));
            }
            i = j;
        }
    }
    proof {
        assert(flag_fold(toks, i as int, acc.deep_view()) == acc.deep_view());
    }
    let ghost accd = acc.deep_view();
    let mut out: Vec<char> = Vec::new();
    let mut p: usize = 0;
    while p < acc.len()
        invariant
            0 <= p <= accd.len(),
            acc.deep_view() == accd,
            render_from(accd, p as int, out@) == render_from(accd, 0, Seq::empty()),
        decreases accd.len() - p,
    {
        let ghost out0 = out@;
        proof {
            lemma_chars_view(acc@[p as int].0);
            lemma_chars_view(acc@[p as int].1);
        }
        if acc[p].0.len() == 0 {
            let mut v = copy_chars(&acc[p].1);
            out.append(&mut v);
        } else {
            out.push(' ');
            let mut k = copy_chars(&acc[p].0);
            out.append(&mut k);
            if acc[p].1.len() > 0 {
                if !(acc[p].0[acc[p].0.len() - 1] == '=') {
                    out.push(' ');
                }
                let mut v = copy_chars(&acc[p].1);
                out.append(&mut v);
            }
        }
        proof {
            assert(out@ =~= out0 + render_entry(accd[p as int].0, accd[p as int].1));
            assert(render_from(accd, p as int, out0) == render_from(accd, p + 1, out@));
        }
        p += 1;
    }
    chars_to_string(&out)
}

/// Index of the first argument equal to `arg`, from position `i`; negative
/// if none.
pub open spec fn find_arg_from(args: Seq<String>, arg: Seq<char>, i: int) -> int
    decreases args.len() - i,
{
    if i < 0 || i >= args.len() {
        -1
    } else if args[i]@ == arg {
        i
    } else {
        find_arg_from(args, arg, i + 1)
    }
}

/// The value following the first occurrence of the flag `arg` in an argument
/// list, if the flag occurs and a value follows it.
#[verifier::loop_isolation(false)]
pub fn parse_arg(args: &Vec<String>, arg: &str) -> (r: Option<String>)
    ensures
        ({
            let f = find_arg_from(args@, arg@, 0);
            &&& (r is Some <==> f >= 0 && f + 1 < args@.len())
            &&& (r matches Some(v) ==> v == args@[f + 1])
        }),
{
    let arg_owned = arg.to_owned();
    let mut i: usize = 0;
    while i < args.len()
        invariant
            arg_owned@ == arg@,
            0 <= i <= args@.len(),
            find_arg_from(args@, arg@, 0) == find_arg_from(args@, arg@, i as int),
        decreases args@.len() - i,
    {
        if args[i] == arg_owned {
            proof {
                assert(find_arg_from(args@, arg@, i as int) == i as int);
            }
            if i + 1 < args.len() {
                return Some(args[i + 1].clone());
            } else {
                return None;
            }
        }
        i += 1;
        proof {
            assert(find_arg_from(args@, arg@, i - 1) == find_arg_from(args@, arg@, i as int));
        }
    }
    proof {
        assert(find_arg_from(args@, arg@, i as int) == -1);
    }
    None
}

fn copy_strings(v: &Vec<String>) -> (r: Vec<String>)
    ensures
        r@ == v@,
{
    let mut r: Vec<String> = Vec::new();
    let mut i: usize = 0;
    while i < v.len()
        invariant
            0 <= i <= v@.len(),
            r@ =~= v@.take(i as int),
        decreases v@.len() - i,
    {
        r.push(v[i].clone());
        i += 1;
        proof {
            assert(r@ =~= v@.take(i as int));
        }
    }
    proof {
        assert(v@.take(v@.len() as int) =~= v@);
    }
    r
}

fn copy_opt_string(v: &Option<String>) -> (r: Option<String>)
    ensures
        r == *v,
{
    match v {
        Option::Some(s) => Option::Some(s.clone()),
        Option::None => Option::None,
    }
}

/// The parts of the client-supplied configuration that the build core reads.
pub struct Config {
    /// Analyse the whole workspace, intercepting every member's compilation.
    pub workspace_mode: bool,
    /// Restrict workspace analysis to one member package.
    pub analyze_package: Option<String>,
    /// Target triple to build for.
    pub target: Option<String>,
    /// Cargo features to enable.
    pub features: Vec<String>,
    pub all_features: bool,
    pub no_default_features: bool,
    /// Compile under `cfg(test)` so test code is analysed too.
    pub cfg_test: bool,
    /// In single-crate mode, build the library target.
    pub build_lib: bool,
    /// In single-crate mode, the binary target to build, if any.
    pub build_bin: Option<String>,
    /// A sysroot to hand to the compiler.
    pub sysroot: Option<String>,
    /// Extra compiler flags from the client.
    pub rustflags: Option<String>,
    /// Drop `RUST_LOG` for external invocations.
    pub clear_env_rust_log: bool,
    /// Debounce interval for Normal-priority builds, in milliseconds.
    pub wait_to_build: u64,
}

/// The options handed to the external build tool for a full resolution pass.
pub struct CargoOptions {
    pub package: Vec<String>,
    pub target: Option<String>,
    pub lib: bool,
    pub bin: Vec<String>,
    pub bins: bool,
    pub all: bool,
    pub exclude: Vec<String>,
    pub all_features: bool,
    pub no_default_features: bool,
    pub features: Vec<String>,
}

impl Default for CargoOptions {
    fn default() -> (r: CargoOptions)
        ensures
            r.package@.len() == 0,
            r.target is None,
            !r.lib,
            r.bin@.len() == 0,
            !r.bins,
            !r.all,
            r.exclude@.len() == 0,
            !r.all_features,
            !r.no_default_features,
            r.features@.len() == 0,
    {
        CargoOptions {
            package: Vec::new(),
            target: Option::None,
            lib: false,
            bin: Vec::new(),
            bins: false,
            all: false,
            exclude: Vec::new(),
            all_features: false,
            no_default_features: false,
            features: Vec::new(),
        }
    }
}

impl CargoOptions {
    /// The options a given configuration asks for: in workspace mode either
    /// the one package under analysis or the whole workspace; in single-crate
    /// mode the library target, or the configured binary.
    pub fn new(config: &Config) -> (r: CargoOptions)
        ensures
            r.target == config.target,
            r.features@ == config.features@,
            r.all_features == config.all_features,
            r.no_default_features == config.no_default_features,
            r.exclude@.len() == 0,
            !r.bins,
            config.workspace_mode ==> ({
                &&& !r.lib
                &&& r.bin@.len() == 0
                &&& (config.analyze_package matches Some(p) ==> r.package@ == seq![p] && !r.all)
                &&& (config.analyze_package is None ==> r.package@.len() == 0 && r.all)
            }),
            !config.workspace_mode ==> ({
                &&& r.package@.len() == 0
                &&& !r.all
                &&& r.lib == config.build_lib
                &&& (config.build_lib ==> r.bin@.len() == 0)
                &&& (!config.build_lib ==> ({
                    &&& (config.build_bin matches Some(b) ==> r.bin@ == seq![b])
                    &&& (config.build_bin is None ==> r.bin@.len() == 0)
                }))
            }),
    {
        if config.workspace_mode {
            let mut package: Vec<String> = Vec::new();
            let mut all = true;
            match &config.analyze_package {
                Option::Some(p) => {
                    package.push(p.clone());
                    all = false;
                },
                Option::None => {},
            }
            CargoOptions {
                package,
                all,
                target: copy_opt_string(&config.target),
                features: copy_strings(&config.features),
                all_features: config.all_features,
                no_default_features: config.no_default_features,
                lib: false,
                bin: Vec::new(),
                bins: false,
                exclude: Vec::new(),
            }
        } else {
            let mut bin: Vec<String> = Vec::new();
            if !config.build_lib {
                match &config.build_bin {
                    Option::Some(b) => {
                        bin.push(b.clone());
                    },
                    Option::None => {},
                }
            }
            CargoOptions {
                lib: config.build_lib,
                bin,
                target: copy_opt_string(&config.target),
                features: copy_strings(&config.features),
                all_features: config.all_features,
                no_default_features: config.no_default_features,
                package: Vec::new(),
                all: false,
                bins: false,
                exclude: Vec::new(),
            }
        }
    }
}

/// The flag string a full resolution pass exports for nested compiler calls,
/// before deduplication: the ambient flags, then the configured flags, then
/// the JSON-diagnostics base, with the configured sysroot when one is set.
pub open spec fn spec_rustflags(
    sysroot: Option<String>,
    cfg_flags: Option<String>,
    ambient: Seq<char>,
) -> Seq<char> {
    let base = "--error-format=json "@ + (match sysroot {
        Option::Some(sr) => " --sysroot "@ + sr@,
        Option::None => Seq::<char>::empty(),
    });
    let cfg = match cfg_flags {
        Option::Some(f) => f@,
        Option::None => Seq::<char>::empty(),
    };
    ambient + " "@ + cfg + " "@ + base
}

/// The deduplicated flag string for nested compiler calls; `ambient` is the
/// flag variable's value in the process environment, empty when unset.
pub fn prepare_cargo_rustflags(config: &Config, ambient: &str) -> (r: String)
    ensures
        r@ == dedup_flags_spec(spec_rustflags(config.sysroot, config.rustflags, ambient@)),
{
    let mut flags = String::from_str("--error-format=json ");
    match &config.sysroot {
        Option::Some(sr) => {
            flags.append(" --sysroot ");
            flags.append(sr.as_str());
        },
        Option::None => {},
    }
    let mut composed = String::from_str(ambient);
    composed.append(" ");
    match &config.rustflags {
        Option::Some(f) => {
            composed.append(f.as_str());
        },
        Option::None => {},
    }
    composed.append(" ");
    composed.append(flags.as_str());
    proof {
        assert(composed@ =~= spec_rustflags(config.sysroot, config.rustflags, ambient@));
    }
    dedup_flags(composed.as_str())
}

/// The argument text starts with `--emit`.
pub open spec fn starts_emit(a: Seq<char>) -> bool {
    a.len() >= 6 && a.take(6) == "--emit"@
}

/// How one argument of the build tool's compiler command line is carried
/// over: for the final crate type outside workspace mode, an `--emit`
/// request is narrowed to dependency info only, since the compiler is run
/// again in-process later; everything else is kept as it is.
pub open spec fn spec_carried_arg(a: Seq<char>, narrow_emit: bool) -> Seq<char> {
    if starts_emit(a) && narrow_emit {
        "--emit=dep-info"@
    } else {
        a
    }
}

/// Rewrites the compiler arguments the build tool prepared for a primary
/// unit so the in-process compiler serves the analysis: test code is
/// compiled too when configured (`--test` for the final crate type, `--cfg
/// test` below it), a sysroot is supplied when the configuration names
/// none, and outside workspace mode the final crate type's `--emit` is
/// narrowed to dependency info. `None` when the command line names no crate
/// type.
#[verifier::loop_isolation(false)]
pub fn prepare_rustc_args(
    config: &Config,
    args: &Vec<String>,
    sysroot: &str,
) -> (r: Option<Vec<String>>)
    ensures
        ({
            let f = find_arg_from(args@, "--crate-type"@, 0);
            &&& (r is Some <==> f >= 0 && f + 1 < args@.len())
            &&& (r matches Some(out) ==> ({
                let crate_type = args@[f + 1]@;
                let is_final = crate_type == "bin"@ || (crate_type == "lib"@ && config.build_lib);
                let narrow_emit = is_final && !config.workspace_mode;
                let test_extra: int = if config.cfg_test {
                    if is_final {
                        1int
                    } else {
                        2int
                    }
                } else {
                    0int
                };
                let sysroot_extra: int = if config.sysroot is None {
                    2int
                } else {
                    0int
                };
                &&& out@.len() == args@.len() + test_extra + sysroot_extra
                &&& (forall|i: int|
                    0 <= i < args@.len() ==> (#[trigger] out@[i])@ == spec_carried_arg(
                        args@[i]@,
                        narrow_emit,
                    ))
                &&& (config.cfg_test && is_final ==> out@[args@.len() as int]@ == "--test"@)
                &&& (config.cfg_test && !is_final ==> out@[args@.len() as int]@ == "--cfg"@
                    && out@[args@.len() as int + 1]@ == "test"@)
                &&& (config.sysroot is None ==> out@[out@.len() as int - 2]@ == "--sysroot"@
                    && out@[out@.len() as int - 1]@ == sysroot@)
            }))
        }),
{
    let crate_type = match parse_arg(args, "--crate-type") {
        Option::Some(c) => c,
        Option::None => {
            return Option::None;
        },
    };
    let bin_owned = "bin".to_owned();
    let lib_owned = "lib".to_owned();
    let is_final = crate_type == bin_owned || (crate_type == lib_owned && config.build_lib);
    proof {
        reveal_strlit("bin");
        reveal_strlit("lib");
    }
    let narrow_emit = is_final && !config.workspace_mode;
    let mut out: Vec<String> = Vec::new();
    let mut i: usize = 0;
    while i < args.len()
        invariant
            0 <= i <= args@.len(),
            out@.len() == i,
            forall|k: int|
                0 <= k < i ==> (#[trigger] out@[k])@ == spec_carried_arg(args@[k]@, narrow_emit),
        decreases args@.len() - i,
    {
        let a = &args[i];
        let is_emit = a.as_str().unicode_len() >= 6 && {
            let prefix = a.as_str().substring_char(0, 6);
            let emit_owned = "--emit".to_owned();
            let prefix_owned = prefix.to_owned();
            prefix_owned == emit_owned
        };
        proof {
            reveal_strlit("--emit");
        }
        if is_emit && narrow_emit {
            out.push("--emit=dep-info".to_owned());
            proof {
                reveal_strlit("--emit=dep-info");
            }
        } else {
            out.push(a.clone());
        }
        i += 1;
    }
    if config.cfg_test {
        if is_final {
            out.push("--test".to_owned());
            proof {
                reveal_strlit("--test");
            }
        } else {
            out.push("--cfg".to_owned());
            out.push("test".to_owned());
            proof {
                reveal_strlit("--cfg");
                reveal_strlit("test");
            }
        }
    }
    if matches!(config.sysroot, Option::None) {
        out.push("--sysroot".to_owned());
        out.push(sysroot.to_owned());
        proof {
            reveal_strlit("--sysroot");
        }
    }
    Option::Some(out)
}

} // verus!
