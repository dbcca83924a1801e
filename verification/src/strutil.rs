//! Verified text utilities: equality, substring search, placeholder
//! replacement, ASCII lowercasing, decimal rendering of integers and
//! joining of rows. These carry the string work of the templating and
//! registry components.
use vstd::prelude::*;

verus! {

/// True when `sub` occurs in `s` starting at index `i`.
pub open spec fn is_sub_at(s: Seq<char>, sub: Seq<char>, i: int) -> bool {
    0 <= i && i + sub.len() <= s.len() && s.subrange(i, i + sub.len()) == sub
}

/// True when `sub` occurs somewhere in `s`.
pub open spec fn contains_sub(s: Seq<char>, sub: Seq<char>) -> bool {
    exists|i: int| is_sub_at(s, sub, i)
}

/// Index of the first occurrence of `sub` in `s`, if any.
/// A search for the empty pattern is treated as finding nothing.
pub open spec fn first_occ(s: Seq<char>, sub: Seq<char>) -> Option<int>
    decreases s.len(),
{
    if sub.len() == 0 || s.len() < sub.len() {
        None
    } else if is_sub_at(s, sub, 0) {
        Some(0)
    } else {
        match first_occ(s.subrange(1, s.len() as int), sub) {
            Some(i) => Some(i + 1),
            None => None,
        }
    }
}

/// `s` with every occurrence of `from` replaced by `to`, scanning left to
/// right over non-overlapping occurrences.
pub open spec fn spec_replace(s: Seq<char>, from: Seq<char>, to: Seq<char>) -> Seq<char>
    decreases s.len(),
{
    match first_occ(s, from) {
        None => s,
        Some(i) => {
            if from.len() > 0 && 0 <= i && i + from.len() <= s.len() {
                s.subrange(0, i) + to + spec_replace(
                    s.subrange(i + from.len(), s.len() as int),
                    from,
                    to,
                )
            } else {
                s
            }
        },
    }
}

/// String equality over the character views.
pub fn str_eq(a: &str, b: &str) -> (r: bool)
    ensures
        r == (a@ == b@),
{
    let alen = a.unicode_len();
    let blen = b.unicode_len();
    if alen != blen {
        proof {
            assert(a@ != b@) by {
                if a@ == b@ {
                    assert(a@.len() == b@.len());
                }
            }
        }
        return false;
    }
    let mut i: usize = 0;
    while i < alen
        invariant
            i <= alen,
            alen == a@.len(),
            alen == b@.len(),
            forall|j: int| 0 <= j < i ==> a@[j] == b@[j],
        decreases alen - i,
    {
        if a.get_char(i) != b.get_char(i) {
            return false;
        }
        i = i + 1;
    }
    proof {
        assert(a@ =~= b@);
    }
    true
}

/// Relies on alloc::string::String::push: appends one character at the end.
#[verifier::external_body]
pub fn push_char(s: &mut String, c: char)
    ensures
        final(s)@ == old(s)@ + seq![c],
{
    s.push(c);
}

/// Occurrence of a pattern at a shifted index survives dropping the first
/// character of the text.
proof fn lemma_sub_shift(s: Seq<char>, sub: Seq<char>, j: int)
    requires
        s.len() >= 1,
        0 <= j,
    ensures
        is_sub_at(s.subrange(1, s.len() as int), sub, j) == is_sub_at(s, sub, j + 1),
{
    let t = s.subrange(1, s.len() as int);
    if j + 1 + sub.len() <= s.len() {
        assert(t.subrange(j, j + sub.len() as int) =~= s.subrange(j + 1, j + 1 + sub.len()));
    }
}

/// `first_occ` finds the leftmost occurrence, and finds one whenever one
/// exists.
pub proof fn lemma_first_occ(s: Seq<char>, sub: Seq<char>)
    requires
        sub.len() > 0,
    ensures
        match first_occ(s, sub) {
            Some(i) => is_sub_at(s, sub, i) && (forall|j: int|
                0 <= j < i ==> !is_sub_at(s, sub, j)),
            None => !contains_sub(s, sub),
        },
    decreases s.len(),
{
    if s.len() < sub.len() {
        assert(forall|i: int| !is_sub_at(s, sub, i));
    } else if is_sub_at(s, sub, 0) {
    } else {
        let t = s.subrange(1, s.len() as int);
        lemma_first_occ(t, sub);
        assert forall|j: int| 0 <= j implies is_sub_at(t, sub, j) == is_sub_at(s, sub, j + 1) by {
            lemma_sub_shift(s, sub, j);
        }
        match first_occ(t, sub) {
            Some(i) => {
                assert(is_sub_at(s, sub, i + 1));
                assert forall|j: int| 0 <= j < i + 1 implies !is_sub_at(s, sub, j) by {
                    if j > 0 {
                        assert(!is_sub_at(t, sub, j - 1));
                    }
                }
            },
            None => {
                assert forall|j: int| !is_sub_at(s, sub, j) by {
                    if j > 0 {
                        assert(!is_sub_at(t, sub, j - 1));
                    }
                }
            },
        }
    }
}

/// Leftmost occurrence of `sub` in `s`, by character index.
pub fn find_sub(s: &str, sub: &str) -> (r: Option<usize>)
    requires
        sub@.len() > 0,
    ensures
        match r {
            Some(i) => first_occ(s@, sub@) == Some(i as int),
            None => first_occ(s@, sub@) is None,
        },
{
    proof {
        lemma_first_occ(s@, sub@);
    }
    let slen = s.unicode_len();
    let blen = sub.unicode_len();
    if blen > slen {
        proof {
            assert(forall|i: int| !is_sub_at(s@, sub@, i));
        }
        return None;
    }
    let mut i: usize = 0;
    while i <= slen - blen
        invariant
            blen == sub@.len(),
            slen == s@.len(),
            0 < blen <= slen,
            i <= slen - blen + 1,
            forall|j: int| 0 <= j < i ==> !is_sub_at(s@, sub@, j),
        decreases slen - blen - i + 1,
    {
        let mut j: usize = 0;
        let mut matches = true;
        while j < blen
            invariant
                blen == sub@.len(),
                slen == s@.len(),
                0 < blen <= slen,
                i + blen <= slen,
                j <= blen,
                matches ==> forall|k: int| 0 <= k < j ==> s@[i + k] == sub@[k],
                !matches ==> !is_sub_at(s@, sub@, i as int),
            decreases blen - j,
        {
            if matches {
                let sc = s.get_char(i + j);
                let bc = sub.get_char(j);
                if sc != bc {
                    proof {
                        if is_sub_at(s@, sub@, i as int) {
                            assert(s@.subrange(i as int, i + blen)[j as int] == sub@[j as int]);
                        }
                    }
                    matches = false;
                }
            }
            j = j + 1;
        }
        if matches {
            proof {
                assert(s@.subrange(i as int, i + blen) =~= sub@);
                assert(is_sub_at(s@, sub@, i as int));
                lemma_first_occ(s@, sub@);
                match first_occ(s@, sub@) {
                    Some(f) => {
                        assert(is_sub_at(s@, sub@, f));
                        assert(!(f < i));
                        assert(!(i < f));
                    },
                    None => {
                        assert(is_sub_at(s@, sub@, i as int));
                        assert(contains_sub(s@, sub@));
                    },
                }
            }
            return Some(i);
        }
        i = i + 1;
    }
    proof {
        assert forall|j: int| !is_sub_at(s@, sub@, j) by {
            if 0 <= j <= slen - blen {
                assert(!is_sub_at(s@, sub@, j));
            }
        }
    }
    None
}

/// True when `sub` occurs somewhere in `s`; the empty pattern counts as
/// absent, matching the search above.
pub fn contains_str(s: &str, sub: &str) -> (r: bool)
    requires
        sub@.len() > 0,
    ensures
        r == contains_sub(s@, sub@),
{
    proof {
        lemma_first_occ(s@, sub@);
    }
    match find_sub(s, sub) {
        Some(_) => true,
        None => false,
    }
}

/// Every occurrence of `from` replaced by `to`, scanning left to right.
pub fn replace_all(s: &str, from: &str, to: &str) -> (res: String)
    ensures
        res@ == spec_replace(s@, from@, to@),
    decreases s@.len(),
{
    let flen = from.unicode_len();
    if flen == 0 {
        return s.to_owned();
    }
    let slen = s.unicode_len();
    match find_sub(s, from) {
        None => s.to_owned(),
        Some(i) => {
            proof {
                lemma_first_occ(s@, from@);
                assert(is_sub_at(s@, from@, i as int));
            }
            let prefix = s.substring_char(0, i);
            let rest = s.substring_char(i + flen, slen);
            let tail = replace_all(rest, from, to);
            let mut out = prefix.to_owned();
            out.append(to);
            out.append(tail.as_str());
            out
        },
    }
}

/// ASCII lowercase of one character; anything outside `A`..`Z` is kept.
pub open spec fn lower_char(c: char) -> char {
    if 'A' <= c && c <= 'Z' {
        (((c as u8) + 32) as char)
    } else {
        c
    }
}

/// ASCII lowercase of a character sequence.
pub open spec fn to_lower(s: Seq<char>) -> Seq<char> {
    s.map_values(|c: char| lower_char(c))
}

/// ASCII lowercase, executable.
pub fn to_ascii_lower(s: &str) -> (res: String)
    ensures
        res@ == to_lower(s@),
{
    let len = s.unicode_len();
    let mut out = String::new();
    let mut i: usize = 0;
    while i < len
        invariant
            i <= len,
            len == s@.len(),
            out@ == to_lower(s@.subrange(0, i as int)),
        decreases len - i,
    {
        let c = s.get_char(i);
        let lc: char = if 'A' <= c && c <= 'Z' {
            ((c as u8) + 32) as char
        } else {
            c
        };
        push_char(&mut out, lc);
        proof {
            assert(out@ =~= to_lower(s@.subrange(0, i + 1)));
        }
        i = i + 1;
    }
    proof {
        assert(s@.subrange(0, len as int) =~= s@);
    }
    out
}

/// The character for one decimal digit.
pub open spec fn digit_char(d: int) -> char {
    (((48 + d) as u8) as char)
}

/// Decimal digits of a natural number, most significant first.
pub open spec fn spec_u64_digits(n: nat) -> Seq<char>
    decreases n,
{
    if n < 10 {
        seq![digit_char(n as int)]
    } else {
        spec_u64_digits(n / 10) + seq![digit_char((n % 10) as int)]
    }
}

/// Decimal rendering of a signed value.
pub open spec fn spec_i64_str(n: int) -> Seq<char> {
    if n < 0 {
        seq!['-'] + spec_u64_digits((-n) as nat)
    } else {
        spec_u64_digits(n as nat)
    }
}

/// Decimal rendering of an unsigned integer.
pub fn u64_to_string(n: u64) -> (res: String)
    ensures
        res@ == spec_u64_digits(n as nat),
    decreases n,
{
    if n < 10 {
        let mut out = String::new();
        push_char(&mut out, ((48 + n) as u8) as char);
        proof {
            assert(out@ =~= spec_u64_digits(n as nat));
        }
        out
    } else {
        let mut out = u64_to_string(n / 10);
        push_char(&mut out, ((48 + (n % 10)) as u8) as char);
        proof {
            assert(out@ =~= spec_u64_digits(n as nat));
        }
        out
    }
}

/// Decimal rendering of a signed integer.
pub fn i64_to_string(n: i64) -> (res: String)
    ensures
        res@ == spec_i64_str(n as int),
{
    if n < 0 {
        let mag: u64 = if n == i64::MIN {
            9223372036854775808u64
        } else {
            (-n) as u64
        };
        let digits = u64_to_string(mag);
        let mut out = String::new();
        push_char(&mut out, '-');
        out.append(digits.as_str());
        proof {
            assert(out@ =~= spec_i64_str(n as int));
        }
        out
    } else {
        u64_to_string(n as u64)
    }
}

/// Decimal rendering of an `i32`.
pub fn i32_to_string(n: i32) -> (res: String)
    ensures
        res@ == spec_i64_str(n as int),
{
    i64_to_string(n as i64)
}

/// Rows joined with a separator between neighbours.
pub open spec fn spec_join(rows: Seq<Seq<char>>, sep: Seq<char>) -> Seq<char>
    decreases rows.len(),
{
    if rows.len() == 0 {
        Seq::<char>::empty()
    } else if rows.len() == 1 {
        rows[0]
    } else {
        rows[0] + sep + spec_join(rows.drop_first(), sep)
    }
}

/// Appending one row on the right extends the join by a separator and the
/// row.
proof fn lemma_join_push(rows: Seq<Seq<char>>, sep: Seq<char>, r: Seq<char>)
    requires
        rows.len() >= 1,
    ensures
        spec_join(rows.push(r), sep) == spec_join(rows, sep) + sep + r,
    decreases rows.len(),
{
    if rows.len() == 1 {
        let p = rows.push(r);
        assert(p.drop_first() =~= seq![r]);
        assert(p[0] == rows[0]);
        assert(seq![r][0] == r);
        assert(spec_join(seq![r], sep) == r);
        assert(spec_join(p, sep) == rows[0] + sep + r);
    } else {
        lemma_join_push(rows.drop_first(), sep, r);
        let p = rows.push(r);
        assert(p.drop_first() =~= rows.drop_first().push(r));
        assert(p[0] == rows[0]);
    }
}

/// The views of a vector of strings.
pub open spec fn views_of(rows: Seq<String>) -> Seq<Seq<char>> {
    rows.map_values(|r: String| r@)
}

/// Lexicographic order on character sequences, smaller-or-equal.
pub open spec fn lex_le(a: Seq<char>, b: Seq<char>) -> bool
    decreases a.len(),
{
    if a.len() == 0 {
        true
    } else if b.len() == 0 {
        false
    } else if a[0] != b[0] {
        a[0] < b[0]
    } else {
        lex_le(a.drop_first(), b.drop_first())
    }
}

/// Lexicographic comparison of two texts.
pub fn str_lex_le(a: &str, b: &str) -> (r: bool)
    ensures
        r == lex_le(a@, b@),
{
    let alen = a.unicode_len();
    let blen = b.unicode_len();
    let mut i: usize = 0;
    proof {
        assert(a@.skip(0) =~= a@);
        assert(b@.skip(0) =~= b@);
    }
    while i < alen && i < blen
        invariant
            i <= alen,
            i <= blen,
            alen == a@.len(),
            blen == b@.len(),
            lex_le(a@, b@) == lex_le(a@.skip(i as int), b@.skip(i as int)),
        decreases alen - i,
    {
        let ca = a.get_char(i);
        let cb = b.get_char(i);
        proof {
            assert(a@.skip(i as int)[0] == a@[i as int]);
            assert(b@.skip(i as int)[0] == b@[i as int]);
            assert(a@.skip(i as int).drop_first() =~= a@.skip(i + 1));
            assert(b@.skip(i as int).drop_first() =~= b@.skip(i + 1));
        }
        if ca != cb {
            return ca < cb;
        }
        i = i + 1;
    }
    proof {
        if i >= alen {
            assert(a@.skip(i as int) =~= Seq::<char>::empty());
        } else {
            assert(b@.skip(i as int) =~= Seq::<char>::empty());
            assert(a@.skip(i as int).len() > 0);
        }
    }
    alen <= blen
}

/// Where one text belongs in a sorted row: after every entry at or below
/// it, before the first strictly above it.
pub open spec fn spec_insert_sorted(x: Seq<char>, s: Seq<Seq<char>>) -> Seq<Seq<char>>
    decreases s.len(),
{
    if s.len() == 0 {
        seq![x]
    } else if lex_le(s[0], x) {
        seq![s[0]] + spec_insert_sorted(x, s.drop_first())
    } else {
        seq![x] + s
    }
}

/// Texts sorted by inserting each in turn: a stable sort.
pub open spec fn spec_sort_texts(s: Seq<Seq<char>>) -> Seq<Seq<char>>
    decreases s.len(),
{
    if s.len() == 0 {
        Seq::<Seq<char>>::empty()
    } else {
        spec_insert_sorted(s.last(), spec_sort_texts(s.drop_last()))
    }
}

/// The insertion point splits the row: everything before it is at or below
/// the entry, and it lands just there.
proof fn lemma_insert_split(x: Seq<char>, s: Seq<Seq<char>>, p: int)
    requires
        0 <= p <= s.len(),
        forall|j: int| 0 <= j < p ==> lex_le(#[trigger] s[j], x),
        p < s.len() ==> !lex_le(s[p], x),
    ensures
        spec_insert_sorted(x, s) == s.subrange(0, p) + seq![x] + s.subrange(p, s.len() as int),
    decreases s.len(),
{
    if s.len() == 0 {
        assert(spec_insert_sorted(x, s) =~= s.subrange(0, 0) + seq![x] + s.subrange(0, 0));
    } else if p == 0 {
        assert(spec_insert_sorted(x, s) =~= s.subrange(0, 0) + seq![x] + s.subrange(
            0,
            s.len() as int,
        ));
    } else {
        let t = s.drop_first();
        assert forall|j: int| 0 <= j < p - 1 implies lex_le(#[trigger] t[j], x) by {
            assert(t[j] == s[j + 1]);
        }
        assert(p - 1 < t.len() ==> t[p - 1] == s[p]);
        lemma_insert_split(x, t, p - 1);
        assert(spec_insert_sorted(x, s) =~= s.subrange(0, p) + seq![x] + s.subrange(
            p,
            s.len() as int,
        ));
    }
}

/// Texts sorted ascending; entries with equal text keep their order.
pub fn sort_strings(v: Vec<String>) -> (r: Vec<String>)
    ensures
        views_of(r@) == spec_sort_texts(views_of(v@)),
{
    let mut out: Vec<String> = Vec::new();
    let mut i: usize = 0;
    proof {
        assert(views_of(v@.subrange(0, 0)) =~= Seq::<Seq<char>>::empty());
        assert(views_of(out@) =~= spec_sort_texts(views_of(v@.subrange(0, 0))));
    }
    while i < v.len()
        invariant
            i <= v@.len(),
            views_of(out@) == spec_sort_texts(views_of(v@.subrange(0, i as int))),
        decreases v@.len() - i,
    {
        let x = v[i].clone();
        let mut p: usize = 0;
        while p < out.len() && str_lex_le(out[p].as_str(), x.as_str())
            invariant
                p <= out@.len(),
                x@ == v@[i as int]@,
                i < v@.len(),
                views_of(out@) == spec_sort_texts(views_of(v@.subrange(0, i as int))),
                forall|j: int| 0 <= j < p ==> lex_le((#[trigger] out@[j])@, x@),
            decreases out@.len() - p,
        {
            p = p + 1;
        }
        let ghost prior = views_of(out@);
        out.insert(p, x);
        proof {
            assert forall|j: int| 0 <= j < p implies lex_le(#[trigger] prior[j], v@[i as int]@) by {
                assert(prior[j] == out@[j]@);
            }
            lemma_insert_split(v@[i as int]@, prior, p as int);
            assert(views_of(out@) =~= prior.subrange(0, p as int) + seq![v@[i as int]@]
                + prior.subrange(p as int, prior.len() as int));
            let pre = views_of(v@.subrange(0, i as int));
            let ext = views_of(v@.subrange(0, i + 1));
            assert(ext.drop_last() =~= pre);
            assert(ext.last() == v@[i as int]@);
            assert(views_of(out@) =~= spec_sort_texts(ext));
        }
        i = i + 1;
    }
    proof {
        assert(v@.subrange(0, v@.len() as int) =~= v@);
    }
    out
}

/// Rows joined with a separator, executable.
pub fn join_rows(rows: &Vec<String>, sep: &str) -> (res: String)
    ensures
        res@ == spec_join(views_of(rows@), sep@),
{
    if rows.len() == 0 {
        return String::new();
    }
    let mut out: String = rows[0].clone();
    let mut i: usize = 1;
    while i < rows.len()
        invariant
            1 <= i <= rows@.len(),
            out@ == spec_join(views_of(rows@.subrange(0, i as int)), sep@),
        decreases rows@.len() - i,
    {
        out.append(sep);
        out.append(rows[i].as_str());
        proof {
            let pre = views_of(rows@.subrange(0, i as int));
            lemma_join_push(pre, sep@, rows@[i as int]@);
            assert(views_of(rows@.subrange(0, i + 1)) =~= pre.push(rows@[i as int]@));
        }
        i = i + 1;
    }
    proof {
        assert(rows@.subrange(0, rows@.len() as int) =~= rows@);
    }
    out
}

} // verus!
