//! Character-level text utilities with their UTF-8 and line-splitting models.
use vstd::prelude::*;
use vstd::utf8::*;

verus! {

/// Encoding a concatenation is concatenating the encodings.
pub proof fn lemma_encode_utf8_concat(a: Seq<char>, b: Seq<char>)
    ensures
        encode_utf8(a + b) == encode_utf8(a) + encode_utf8(b),
    decreases a.len(),
{
    if a.len() == 0 {
        assert(a + b =~= b);
    } else {
        assert((a + b).drop_first() =~= a.drop_first() + b);
        lemma_encode_utf8_concat(a.drop_first(), b);
        assert((a + b)[0] == a[0]);
    }
}

/// Number of bytes in the UTF-8 encoding of one character.
pub open spec fn utf8_char_len(c: char) -> nat {
    if (c as u32) < 0x80 {
        1
    } else if (c as u32) < 0x800 {
        2
    } else if (c as u32) < 0x10000 {
        3
    } else {
        4
    }
}

pub proof fn lemma_encode_char_len(c: char)
    ensures
        encode_utf8(seq![c]).len() == utf8_char_len(c),
{
    char_is_scalar(c);
    assert(seq![c].drop_first() =~= Seq::<char>::empty());
    assert(encode_utf8(Seq::<char>::empty()) =~= Seq::<u8>::empty());
    assert(encode_utf8(seq![c]) =~= encode_scalar(c as u32));
    let v = c as u32;
    if has_width_1_encoding(v) {
    } else if has_width_2_encoding(v) {
    } else if has_width_3_encoding(v) {
    } else {
        assert(has_width_4_encoding(v));
    }
}

/// Byte length of the UTF-8 encoding of `s`.
pub open spec fn utf8_len(s: Seq<char>) -> nat {
    encode_utf8(s).len()
}

pub proof fn lemma_utf8_len_push(s: Seq<char>, c: char)
    ensures
        utf8_len(s.push(c)) == utf8_len(s) + utf8_char_len(c),
{
    assert(s.push(c) =~= s + seq![c]);
    lemma_encode_utf8_concat(s, seq![c]);
    lemma_encode_char_len(c);
}

/// Byte length of the UTF-8 encoding of a character.
pub fn char_utf8_len(c: char) -> (n: usize)
    ensures
        n == utf8_char_len(c),
{
    let v = c as u32;
    if v < 0x80 {
        1
    } else if v < 0x800 {
        2
    } else if v < 0x10000 {
        3
    } else {
        4
    }
}


/// The characters of a string slice, in order.
pub fn str_chars(s: &str) -> (v: Vec<char>)
    ensures
        v@ == s@,
{
    let mut v: Vec<char> = Vec::new();
    for c in it: s.chars()
        invariant
            v@ == it.seq().take(it.index() as int),
            it.seq() == s@,
    {
        v.push(c);
    }
    v
}

/// Appends one character to a string.
#[verifier::external_body]
pub fn string_push(s: &mut String, c: char)
    ensures
        final(s)@ == old(s)@.push(c),
{
    s.push(c);
}

/// Builds a string holding exactly the given characters.
pub fn string_from_chars(v: &[char]) -> (s: String)
    ensures
        s@ == v@,
{
    let mut s = String::new();
    let mut i: usize = 0;
    while i < v.len()
        invariant
            i <= v@.len(),
            s@ == v@.take(i as int),
        decreases v@.len() - i,
    {
        string_push(&mut s, v[i]);
        assert(v@.take(i + 1) =~= v@.take(i as int).push(v@[i as int]));
        i += 1;
    }
    assert(v@.take(v@.len() as int) =~= v@);
    s
}


/// The views of a sequence of character vectors.
pub open spec fn char_views(v: Seq<Vec<char>>) -> Seq<Seq<char>> {
    v.map_values(|l: Vec<char>| l@)
}

/// The views of a sequence of strings.
pub open spec fn string_views(v: Seq<String>) -> Seq<Seq<char>> {
    v.map_values(|s: String| s@)
}

/// A line without the carriage return that precedes its line feed.
pub open spec fn strip_cr(l: Seq<char>) -> Seq<char> {
    if l.len() > 0 && l.last() == '\r' {
        l.drop_last()
    } else {
        l
    }
}

/// Scans `s` from the left: the lines closed by a line feed so far, and the
/// characters of the line still open.
pub open spec fn line_scan(s: Seq<char>) -> (Seq<Seq<char>>, Seq<char>)
    decreases s.len(),
{
    if s.len() == 0 {
        (seq![], seq![])
    } else {
        let (done, cur) = line_scan(s.drop_last());
        if s.last() == '\n' {
            (done.push(strip_cr(cur)), seq![])
        } else {
            (done, cur.push(s.last()))
        }
    }
}

/// The lines of `s` as `str::lines` yields them: split at line feeds, a
/// carriage return before a line feed removed, and no empty last line after
/// a final line feed.
pub open spec fn spec_lines(s: Seq<char>) -> Seq<Seq<char>> {
    let (done, cur) = line_scan(s);
    if cur.len() == 0 {
        done
    } else {
        done.push(cur)
    }
}

/// Character positions just after each line feed of `s`.
pub open spec fn line_breaks(s: Seq<char>) -> Seq<int>
    decreases s.len(),
{
    if s.len() == 0 {
        seq![]
    } else if s.last() == '\n' {
        line_breaks(s.drop_last()).push(s.len() as int)
    } else {
        line_breaks(s.drop_last())
    }
}

/// Character positions where each line of `s`, with its terminator, ends.
pub open spec fn line_ends(s: Seq<char>) -> Seq<int> {
    if line_scan(s).1.len() == 0 {
        line_breaks(s)
    } else {
        line_breaks(s).push(s.len() as int)
    }
}

/// Byte offset at which line `k` of `s` starts (`k == spec_lines(s).len()`
/// gives the offset just after the last line and its terminator).
pub open spec fn line_byte_offset(s: Seq<char>, k: int) -> int {
    if k == 0 {
        0
    } else {
        utf8_len(s.take(line_ends(s)[k - 1])) as int
    }
}

pub proof fn lemma_line_scan_shape(s: Seq<char>)
    ensures
        line_breaks(s).len() == line_scan(s).0.len(),
        forall|k: int| 0 <= k < line_breaks(s).len() ==> 0 < #[trigger] line_breaks(s)[k] <= s.len(),
        forall|k: int, j: int| 0 <= k < j < line_breaks(s).len() ==> line_breaks(s)[k] < line_breaks(s)[j],
        line_scan(s).1.len() <= s.len(),
        line_breaks(s).len() > 0 ==> line_breaks(s).last() + line_scan(s).1.len() == s.len(),
        line_breaks(s).len() == 0 ==> line_scan(s).1.len() == s.len(),
    decreases s.len(),
{
    if s.len() > 0 {
        lemma_line_scan_shape(s.drop_last());
    }
}

pub proof fn lemma_line_ends_shape(s: Seq<char>)
    ensures
        line_ends(s).len() == spec_lines(s).len(),
        forall|k: int| 0 <= k < line_ends(s).len() ==> 0 < #[trigger] line_ends(s)[k] <= s.len(),
        forall|k: int, j: int| 0 <= k < j < line_ends(s).len() ==> line_ends(s)[k] < line_ends(s)[j],
        line_ends(s).len() > 0 ==> line_ends(s).last() == s.len(),
        s.len() > 0 <==> line_ends(s).len() > 0,
{
    lemma_line_scan_shape(s);
}

/// Splits characters into lines, with the byte offset at which each line
/// starts and the offset after the last line.
pub fn line_layout(s: &Vec<char>) -> (res: (Vec<Vec<char>>, Vec<usize>))
    requires
        utf8_len(s@) <= usize::MAX,
    ensures
        char_views(res.0@) == spec_lines(s@),
        res.1@.len() == res.0@.len() + 1,
        forall|k: int| 0 <= k < res.1@.len() ==> #[trigger] res.1@[k] == line_byte_offset(s@, k),
        forall|k: int|
            0 <= k < res.0@.len() ==> utf8_len(#[trigger] res.0@[k]@) + (if k + 1 < res.0@.len() {
                1int
            } else {
                0int
            }) <= res.1@[k + 1] - res.1@[k],
{
    let mut done: Vec<Vec<char>> = Vec::new();
    let mut cur: Vec<char> = Vec::new();
    let mut offs: Vec<usize> = Vec::new();
    offs.push(0);
    let mut byte_pos: usize = 0;
    let mut i: usize = 0;
    while i < s.len()
        invariant
            i <= s@.len(),
            utf8_len(s@) <= usize::MAX,
            char_views(done@) == line_scan(s@.take(i as int)).0,
            cur@ == line_scan(s@.take(i as int)).1,
            offs@.len() == done@.len() + 1,
            offs@[0] == 0,
            forall|k: int|
                0 <= k < done@.len() ==> #[trigger] offs@[k + 1] == utf8_len(
                    s@.take(line_breaks(s@.take(i as int))[k]),
                ),
            byte_pos == utf8_len(s@.take(i as int)),
            byte_pos == offs@.last() + utf8_len(cur@),
            forall|k: int| 0 <= k < done@.len() ==> utf8_len(#[trigger] done@[k]@) + 1 <= offs@[k + 1] - offs@[k],
        decreases s@.len() - i,
    {
        let ghost prev = s@.take(i as int);
        let ghost next = s@.take(i + 1);
        assert(next.drop_last() =~= prev);
        assert(next.last() == s@[i as int]);
        proof {
            lemma_utf8_len_push(prev, s@[i as int]);
            assert(next =~= prev.push(s@[i as int]));
            lemma_prefix_utf8_le(s@, i + 1);
            lemma_line_scan_shape(prev);
        }
        let c = s[i];
        let w = char_utf8_len(c);
        byte_pos = byte_pos + w;
        if c == '\n' {
            let mut line = cur;
            let n = line.len();
            let ghost cur_v = line@;
            if n > 0 && line[n - 1] == '\r' {
                line.pop();
                assert(line@ =~= strip_cr(cur_v));
                proof {
                    lemma_utf8_len_push(line@, '\r');
                    assert(line@.push('\r') =~= cur_v);
                }
            }
            proof {
                lemma_encode_char_len('\n');
            }
            let ghost old_offs = offs@;
            let ghost old_done = done@;
            done.push(line);
            cur = Vec::new();
            offs.push(byte_pos);
            assert(utf8_len(Seq::<char>::empty()) == 0) by {
                assert(encode_utf8(Seq::<char>::empty()) =~= Seq::<u8>::empty());
            }
            assert forall|k: int| 0 <= k < done@.len() implies utf8_len(#[trigger] done@[k]@) + 1 <= offs@[k + 1] - offs@[k] by {
                if k < old_done.len() {
                    assert(done@[k] == old_done[k]);
                    assert(offs@[k + 1] == old_offs[k + 1]);
                    assert(offs@[k] == old_offs[k]);
                }
            }
            assert(char_views(done@) =~= line_scan(prev).0.push(strip_cr(line_scan(prev).1)));
            assert forall|k: int| 0 <= k < done@.len() implies #[trigger] offs@[k + 1] == utf8_len(
                s@.take(line_breaks(next)[k]),
            ) by {
                if k < done@.len() - 1 {
                    assert(line_breaks(next)[k] == line_breaks(prev)[k]);
                } else {
                    assert(line_breaks(next)[k] == i + 1);
                    assert(s@.take(i + 1) == next);
                }
            }
        } else {
            proof {
                lemma_utf8_len_push(cur@, c);
            }
            cur.push(c);
            assert(char_views(done@) == line_scan(next).0);
        }
        i += 1;
    }
    proof {
        assert(s@.take(s@.len() as int) =~= s@);
        lemma_line_scan_shape(s@);
    }
    let ghost n0 = done@.len();
    if cur.len() > 0 {
        let ghost old_offs = offs@;
        let ghost old_done = done@;
        done.push(cur);
        offs.push(byte_pos);
        assert(char_views(done@) =~= spec_lines(s@));
        assert forall|k: int| 0 <= k < n0 implies utf8_len(#[trigger] done@[k]@) + 1 <= offs@[k + 1] - offs@[k] by {
            assert(done@[k] == old_done[k]);
            assert(offs@[k + 1] == old_offs[k + 1]);
            assert(offs@[k] == old_offs[k]);
        }
    }
    proof {
        assert forall|k: int| 0 <= k < offs@.len() implies #[trigger] offs@[k] == line_byte_offset(s@, k) by {
            if k > 0 {
                if k - 1 < line_breaks(s@).len() {
                    let j = k - 1;
                    assert(offs@[j + 1] == utf8_len(s@.take(line_breaks(s@.take(s@.len() as int))[j])));
                    assert(line_ends(s@)[k - 1] == line_breaks(s@)[k - 1]);
                } else {
                    assert(line_ends(s@)[k - 1] == s@.len());
                    assert(s@.take(s@.len() as int) =~= s@);
                }
            }
        }
    }
    (done, offs)
}

/// A prefix encodes to no more bytes than the whole.
pub proof fn lemma_prefix_utf8_le(s: Seq<char>, n: int)
    requires
        0 <= n <= s.len(),
    ensures
        utf8_len(s.take(n)) <= utf8_len(s),
{
    assert(s =~= s.take(n) + s.skip(n));
    lemma_encode_utf8_concat(s.take(n), s.skip(n));
}


/// Lines joined with a line feed between each two.
pub open spec fn join_lines(ls: Seq<Seq<char>>) -> Seq<char>
    decreases ls.len(),
{
    if ls.len() == 0 {
        seq![]
    } else if ls.len() == 1 {
        ls[0]
    } else {
        join_lines(ls.drop_last()) + seq!['\n'] + ls.last()
    }
}

/// Joins `lines[from..to]` with line feeds.
pub fn join_line_range(lines: &Vec<Vec<char>>, from: usize, to: usize) -> (r: Vec<char>)
    requires
        from <= to <= lines@.len(),
    ensures
        r@ == join_lines(char_views(lines@).subrange(from as int, to as int)),
{
    let mut out: Vec<char> = Vec::new();
    let mut k = from;
    while k < to
        invariant
            from <= k <= to <= lines@.len(),
            out@ == join_lines(char_views(lines@).subrange(from as int, k as int)),
        decreases to - k,
    {
        let ghost before = out@;
        if k > from {
            out.push('\n');
        }
        let line = &lines[k];
        let mut j: usize = 0;
        let ghost mid = out@;
        while j < line.len()
            invariant
                j <= line@.len(),
                out@ == mid + line@.take(j as int),
            decreases line@.len() - j,
        {
            out.push(line[j]);
            assert(line@.take(j + 1) =~= line@.take(j as int).push(line@[j as int]));
            j += 1;
        }
        proof {
            let vs = char_views(lines@);
            assert(line@.take(line@.len() as int) =~= line@);
            assert(vs.subrange(from as int, k + 1).drop_last() =~= vs.subrange(from as int, k as int));
            if k > from {
                assert(out@ =~= before + seq!['\n'] + vs[k as int]);
            } else {
                assert(vs.subrange(from as int, k + 1) =~= seq![vs[k as int]]);
                assert(out@ =~= vs[k as int]);
            }
        }
        k += 1;
    }
    out
}

/// Whether two string slices hold the same characters.
pub fn str_eq(a: &str, b: &str) -> (r: bool)
    ensures
        r == (a@ == b@),
{
    let x = a.as_bytes();
    let y = b.as_bytes();
    proof {
        encode_utf8_decode_utf8(a@);
        encode_utf8_decode_utf8(b@);
    }
    if x.len() != y.len() {
        assert(x@ == encode_utf8(a@));
        assert(y@ == encode_utf8(b@));
        return false;
    }
    let mut i: usize = 0;
    while i < x.len()
        invariant
            i <= x@.len(),
            x@.len() == y@.len(),
            x@ == encode_utf8(a@),
            y@ == encode_utf8(b@),
            forall|k: int| 0 <= k < i ==> x@[k] == y@[k],
        decreases x@.len() - i,
    {
        if x[i] != y[i] {
            proof {
                if a@ == b@ {
                    assert(x@ == encode_utf8(a@));
                    assert(y@ == encode_utf8(b@));
                }
            }
            return false;
        }
        i += 1;
    }
    assert(x@ =~= y@);
    true
}


/// The UTF-8 encoding of a string slice fits in memory.
pub fn str_utf8_len(s: &str) -> (n: usize)
    ensures
        n == utf8_len(s@),
{
    let b = s.as_bytes();
    b.len()
}

/// `char::is_whitespace`: the Unicode White_Space property.
pub open spec fn is_ws(c: char) -> bool {
    let v = c as u32;
    ||| 0x09 <= v <= 0x0D
    ||| v == 0x20
    ||| v == 0x85
    ||| v == 0xA0
    ||| v == 0x1680
    ||| 0x2000 <= v <= 0x200A
    ||| v == 0x2028
    ||| v == 0x2029
    ||| v == 0x202F
    ||| v == 0x205F
    ||| v == 0x3000
}

pub fn char_is_whitespace(c: char) -> (r: bool)
    ensures
        r == is_ws(c),
{
    let v = c as u32;
    (0x09 <= v && v <= 0x0D) || v == 0x20 || v == 0x85 || v == 0xA0 || v == 0x1680 || (0x2000
        <= v && v <= 0x200A) || v == 0x2028 || v == 0x2029 || v == 0x202F || v == 0x205F || v
        == 0x3000
}

/// `str::trim_start`: leading whitespace removed.
pub open spec fn trim_start(s: Seq<char>) -> Seq<char>
    decreases s.len(),
{
    if s.len() > 0 && is_ws(s[0]) {
        trim_start(s.drop_first())
    } else {
        s
    }
}

/// `str::trim_end`: trailing whitespace removed.
pub open spec fn trim_end(s: Seq<char>) -> Seq<char>
    decreases s.len(),
{
    if s.len() > 0 && is_ws(s.last()) {
        trim_end(s.drop_last())
    } else {
        s
    }
}

/// `str::trim`: whitespace removed at both ends.
pub open spec fn trim(s: Seq<char>) -> Seq<char> {
    trim_end(trim_start(s))
}

/// Bounds of the trimmed part of `v`.
pub fn trim_bounds(v: &[char]) -> (r: (usize, usize))
    ensures
        r.0 <= r.1 <= v@.len(),
        v@.subrange(r.0 as int, r.1 as int) == trim(v@),
        v@.subrange(r.0 as int, v@.len() as int) == trim_start(v@),
{
    let n = v.len();
    let mut a: usize = 0;
    assert(v@.skip(0) =~= v@);
    while a < n && char_is_whitespace(v[a])
        invariant
            a <= n == v@.len(),
            trim_start(v@) == trim_start(v@.skip(a as int)),
        decreases n - a,
    {
        assert(v@.skip(a as int).drop_first() =~= v@.skip(a + 1));
        a += 1;
    }
    assert(trim_start(v@.skip(a as int)) == v@.skip(a as int));
    assert(v@.subrange(a as int, n as int) =~= v@.skip(a as int));
    let mut b: usize = n;
    while b > a && char_is_whitespace(v[b - 1])
        invariant
            a <= b <= n == v@.len(),
            trim(v@) == trim_end(v@.subrange(a as int, b as int)),
        decreases b - a,
    {
        assert(v@.subrange(a as int, b as int).drop_last() =~= v@.subrange(a as int, b - 1));
        b -= 1;
    }
    (a, b)
}

/// `p` occurs in `s` at position `i`.
pub open spec fn occurs_at(s: Seq<char>, p: Seq<char>, i: int) -> bool {
    0 <= i && i + p.len() <= s.len() && s.subrange(i, i + p.len()) == p
}

/// `str::contains` for a character sequence.
pub open spec fn has_infix(s: Seq<char>, p: Seq<char>) -> bool {
    exists|i: int| occurs_at(s, p, i)
}

/// `str::starts_with`.
pub open spec fn has_prefix(s: Seq<char>, p: Seq<char>) -> bool {
    occurs_at(s, p, 0)
}

/// `str::ends_with`.
pub open spec fn has_suffix(s: Seq<char>, p: Seq<char>) -> bool {
    occurs_at(s, p, s.len() - p.len())
}

/// Whether `p` occurs in `s` at `i`.
pub fn matches_at(s: &[char], p: &[char], i: usize) -> (r: bool)
    ensures
        r == occurs_at(s@, p@, i as int),
{
    if i > s.len() || p.len() > s.len() - i {
        return false;
    }
    let mut j: usize = 0;
    while j < p.len()
        invariant
            j <= p@.len(),
            i + p@.len() <= s@.len(),
            s@.len() == s.len(),
            forall|k: int| 0 <= k < j ==> s@[i + k] == p@[k],
        decreases p@.len() - j,
    {
        if s[i + j] != p[j] {
            assert(s@.subrange(i as int, i + p@.len())[j as int] != p@[j as int]);
            return false;
        }
        j += 1;
    }
    assert(s@.subrange(i as int, i + p@.len()) =~= p@);
    true
}

/// Whether `p` occurs anywhere in `s`.
pub fn contains_seq(s: &[char], p: &[char]) -> (r: bool)
    ensures
        r == has_infix(s@, p@),
{
    if p.len() > s.len() {
        assert forall|i: int| !occurs_at(s@, p@, i) by {}
        return false;
    }
    let last = s.len() - p.len();
    let mut i: usize = 0;
    loop
        invariant
            p@.len() <= s@.len(),
            last == s@.len() - p@.len(),
            i <= last,
            forall|k: int| 0 <= k < i ==> !occurs_at(s@, p@, k),
        ensures
            forall|k: int| 0 <= k <= last ==> !occurs_at(s@, p@, k),
        decreases last - i,
    {
        if matches_at(s, p, i) {
            return true;
        }
        if i == last {
            break;
        }
        i += 1;
    }
    assert forall|k: int| !occurs_at(s@, p@, k) by {
        if 0 <= k <= last {
        }
    }
    false
}

/// Whether `s` starts with `p`.
pub fn starts_with_seq(s: &[char], p: &[char]) -> (r: bool)
    ensures
        r == has_prefix(s@, p@),
{
    matches_at(s, p, 0)
}

/// Whether `s` ends with `p`.
pub fn ends_with_seq(s: &[char], p: &[char]) -> (r: bool)
    ensures
        r == has_suffix(s@, p@),
{
    if p.len() > s.len() {
        return false;
    }
    matches_at(s, p, s.len() - p.len())
}


/// The decimal digit character for `d < 10`.
pub open spec fn digit_char(d: nat) -> char {
    ((48 + d) as u8) as char
}

/// Decimal notation of `n`, as `usize::to_string` writes it.
pub open spec fn decimal(n: nat) -> Seq<char>
    decreases n,
{
    if n < 10 {
        seq![digit_char(n)]
    } else {
        decimal(n / 10).push(digit_char(n % 10))
    }
}

/// Appends the decimal notation of `n`.
pub fn push_decimal(out: &mut Vec<char>, n: usize)
    ensures
        final(out)@ == old(out)@ + decimal(n as nat),
    decreases n,
{
    if n >= 10 {
        push_decimal(out, n / 10);
    }
    let d = (n % 10) as u8;
    out.push((48u8 + d) as char);
    proof {
        if n < 10 {
            assert(old(out)@ + decimal(n as nat) =~= old(out)@.push(digit_char(n as nat)));
        } else {
            assert(old(out)@ + decimal(n as nat) =~= (old(out)@ + decimal((n / 10) as nat)).push(
                digit_char((n % 10) as nat),
            ));
        }
    }
}

/// Appends all characters of `src`.
pub fn push_all(out: &mut Vec<char>, src: &[char])
    ensures
        final(out)@ == old(out)@ + src@,
{
    let mut i: usize = 0;
    while i < src.len()
        invariant
            i <= src@.len(),
            out@ == old(out)@ + src@.take(i as int),
        decreases src@.len() - i,
    {
        out.push(src[i]);
        assert(src@.take(i + 1) =~= src@.take(i as int).push(src@[i as int]));
        assert(old(out)@ + src@.take(i + 1) =~= (old(out)@ + src@.take(i as int)).push(src@[i as int]));
        i += 1;
    }
    assert(src@.take(src@.len() as int) =~= src@);
}

/// Byte offsets of every character boundary: `r[i]` is the length of the
/// encoding of the first `i` characters.
pub fn prefix_byte_offsets(s: &Vec<char>) -> (r: Vec<usize>)
    requires
        utf8_len(s@) <= usize::MAX,
    ensures
        r@.len() == s@.len() + 1,
        forall|i: int| 0 <= i <= s@.len() ==> #[trigger] r@[i] == utf8_len(s@.take(i)),
{
    let mut r: Vec<usize> = Vec::new();
    r.push(0);
    let mut pos: usize = 0;
    let mut i: usize = 0;
    assert(s@.take(0) =~= Seq::<char>::empty());
    while i < s.len()
        invariant
            i <= s@.len(),
            utf8_len(s@) <= usize::MAX,
            r@.len() == i + 1,
            pos == utf8_len(s@.take(i as int)),
            forall|k: int| 0 <= k <= i ==> #[trigger] r@[k] == utf8_len(s@.take(k)),
        decreases s@.len() - i,
    {
        proof {
            lemma_utf8_len_push(s@.take(i as int), s@[i as int]);
            assert(s@.take(i + 1) =~= s@.take(i as int).push(s@[i as int]));
            lemma_prefix_utf8_le(s@, i + 1);
        }
        pos = pos + char_utf8_len(s[i]);
        r.push(pos);
        i += 1;
    }
    r
}

/// Every line holds at least one character.
pub proof fn lemma_lines_len_le(s: Seq<char>)
    ensures
        spec_lines(s).len() <= s.len(),
{
    lemma_line_scan_shape(s);
    lemma_breaks_le(s);
}

proof fn lemma_breaks_le(s: Seq<char>)
    ensures
        line_breaks(s).len() + (if line_scan(s).1.len() == 0 { 0int } else { 1int }) <= s.len(),
    decreases s.len(),
{
    if s.len() > 0 {
        lemma_breaks_le(s.drop_last());
    }
}

/// Number of lines of `v[a..b]`.
pub fn count_lines(v: &Vec<char>, a: usize, b: usize) -> (n: usize)
    requires
        a <= b <= v@.len(),
    ensures
        n == spec_lines(v@.subrange(a as int, b as int)).len(),
{
    let mut done: usize = 0;
    let mut open = false;
    let mut i = a;
    let ghost s = v@.subrange(a as int, b as int);
    while i < b
        invariant
            a <= i <= b <= v@.len(),
            s == v@.subrange(a as int, b as int),
            done == line_scan(s.take(i - a)).0.len(),
            open == (line_scan(s.take(i - a)).1.len() > 0),
            done <= i - a,
        decreases b - i,
    {
        proof {
            assert(s.take(i - a + 1).drop_last() =~= s.take(i - a));
            assert(s.take(i - a + 1).last() == v@[i as int]);
        }
        if v[i] == '\n' {
            done += 1;
            open = false;
        } else {
            open = true;
        }
        i += 1;
    }
    assert(s.take(b - a) =~= s);
    proof {
        lemma_breaks_le(s);
        lemma_line_scan_shape(s);
    }
    if open {
        done + 1
    } else {
        done
    }
}


/// A copy of a string with the same characters.
pub fn clone_string(s: &String) -> (r: String)
    ensures
        r@ == s@,
{
    s.clone()
}


/// A character encodes to at least one byte.
pub proof fn lemma_utf8_len_ge_len(s: Seq<char>)
    ensures
        s.len() <= utf8_len(s),
    decreases s.len(),
{
    if s.len() > 0 {
        lemma_utf8_len_ge_len(s.drop_last());
        lemma_utf8_len_push(s.drop_last(), s.last());
        assert(s.drop_last().push(s.last()) =~= s);
    }
}

/// The joined lines `lines[i..j]` encode to no more bytes than the region
/// from the start of line `i` to the start of line `j`, less the final line
/// feed when line `j - 1` has one.
pub proof fn lemma_join_bytes(lines: Seq<Seq<char>>, offs: Seq<usize>, i: int, j: int)
    requires
        0 <= i < j <= lines.len(),
        offs.len() == lines.len() + 1,
        forall|k: int|
            0 <= k < lines.len() ==> utf8_len(#[trigger] lines[k]) + (if k + 1 < lines.len() {
                1int
            } else {
                0int
            }) <= offs[k + 1] - offs[k],
    ensures
        utf8_len(join_lines(lines.subrange(i, j))) + (if j < lines.len() { 1int } else { 0int })
            <= offs[j] - offs[i],
    decreases j - i,
{
    let sub = lines.subrange(i, j);
    if j == i + 1 {
        assert(sub =~= seq![lines[i]]);
        assert(lines[i] == lines[j - 1]);
    } else {
        lemma_join_bytes(lines, offs, i, j - 1);
        assert(sub.drop_last() =~= lines.subrange(i, j - 1));
        assert(sub.last() == lines[j - 1]);
        let left = join_lines(lines.subrange(i, j - 1));
        assert(join_lines(sub) == left + seq!['\n'] + lines[j - 1]);
        lemma_encode_utf8_concat(left, seq!['\n']);
        lemma_encode_utf8_concat(left + seq!['\n'], lines[j - 1]);
        lemma_encode_char_len('\n');
        assert(utf8_len(lines[j - 1]) + (if j < lines.len() { 1int } else { 0int }) <= offs[j] - offs[j - 1]);
    }
}

/// Each line before the last ends with a line feed, so the first `k` lines
/// take at least `k` bytes.
pub proof fn lemma_offsets_ge_index(lines: Seq<Seq<char>>, offs: Seq<usize>, k: int)
    requires
        0 <= k < lines.len() || (k == 0 && lines.len() == 0),
        offs.len() == lines.len() + 1,
        offs[0] == 0,
        forall|m: int|
            0 <= m < lines.len() ==> utf8_len(#[trigger] lines[m]) + (if m + 1 < lines.len() {
                1int
            } else {
                0int
            }) <= offs[m + 1] - offs[m],
    ensures
        k <= offs[k],
    decreases k,
{
    if k > 0 {
        lemma_offsets_ge_index(lines, offs, k - 1);
        assert(utf8_len(lines[k - 1]) + 1 <= offs[k] - offs[k - 1]);
    }
}


/// Parts joined with `sep` between each two.
pub open spec fn join_with(parts: Seq<Seq<char>>, sep: Seq<char>) -> Seq<char>
    decreases parts.len(),
{
    if parts.len() == 0 {
        seq![]
    } else if parts.len() == 1 {
        parts[0]
    } else {
        join_with(parts.drop_last(), sep) + sep + parts.last()
    }
}

/// Appends the strings of `parts`, with `sep` between each two.
pub fn push_joined(out: &mut Vec<char>, parts: &Vec<String>, sep: &str)
    ensures
        final(out)@ == old(out)@ + join_with(string_views(parts@), sep@),
{
    let sep_chars = str_chars(sep);
    let ghost views = string_views(parts@);
    let ghost start = out@;
    let mut i: usize = 0;
    while i < parts.len()
        invariant
            i <= parts@.len(),
            views == string_views(parts@),
            sep_chars@ == sep@,
            out@ == start + join_with(views.take(i as int), sep@),
        decreases parts@.len() - i,
    {
        let ghost before = out@;
        if i > 0 {
            push_all(out, sep_chars.as_slice());
        }
        let pc = str_chars(parts[i].as_str());
        push_all(out, pc.as_slice());
        proof {
            assert(views.take(i + 1).drop_last() =~= views.take(i as int));
            assert(views.take(i + 1).last() == parts@[i as int]@);
            if i > 0 {
                assert(out@ =~= start + (join_with(views.take(i as int), sep@) + sep@ + parts@[i as int]@));
            } else {
                assert(views.take(1) =~= seq![parts@[0]@]);
                assert(out@ =~= start + parts@[0]@);
            }
        }
        i += 1;
    }
    assert(views.take(parts@.len() as int) =~= views);
}

/// Appends the characters of a string slice.
pub fn push_str_chars(out: &mut Vec<char>, s: &str)
    ensures
        final(out)@ == old(out)@ + s@,
{
    let c = str_chars(s);
    push_all(out, c.as_slice());
}

} // verus!
