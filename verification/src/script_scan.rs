//! Byte-level scanning of script source: line comments, parenthesized
//! arguments of named calls, and string literals.
//!
//! Scanning works on the UTF-8 bytes of the source; literal contents are
//! rebuilt byte by byte, each byte becoming the character with that code.

use crate::text::push_char;
use vstd::prelude::*;

verus! {

// ---------------------------------------------------------------------------
// Searching bytes
// ---------------------------------------------------------------------------

/// `p` occurs in `s` at `i`.
pub open spec fn bytes_at(s: Seq<u8>, p: Seq<u8>, i: int) -> bool {
    0 <= i && i + p.len() <= s.len() && s.subrange(i, i + p.len()) == p
}

/// First occurrence of `p` in `s` at or after `from`.
pub open spec fn bytes_find_from(s: Seq<u8>, p: Seq<u8>, from: int) -> Option<int>
    decreases s.len() + 1 - from,
{
    if from < 0 || from + p.len() > s.len() {
        None
    } else if bytes_at(s, p, from) {
        Some(from)
    } else {
        bytes_find_from(s, p, from + 1)
    }
}

/// `p` occurs somewhere in `s`.
pub open spec fn bytes_contains(s: Seq<u8>, p: Seq<u8>) -> bool {
    bytes_find_from(s, p, 0) is Some
}

proof fn lemma_find_from_bounds(s: Seq<u8>, p: Seq<u8>, from: int)
    ensures
        match bytes_find_from(s, p, from) {
            Some(i) => from <= i && i + p.len() <= s.len() && bytes_at(s, p, i),
            None => true,
        },
    decreases s.len() + 1 - from,
{
    if !(from < 0 || from + p.len() > s.len()) && !bytes_at(s, p, from) {
        lemma_find_from_bounds(s, p, from + 1);
    }
}

fn bytes_at_exec(s: &[u8], p: &[u8], i: usize) -> (r: bool)
    ensures
        r == bytes_at(s@, p@, i as int),
{
    let n = s.len();
    let m = p.len();
    if i > n || m > n - i {
        return false;
    }
    let mut k: usize = 0;
    while k < m
        invariant
            i + m <= n,
            n == s@.len(),
            m == p@.len(),
            k <= m,
            forall|j: int| 0 <= j < k ==> s@[i + j] == p@[j],
        decreases m - k,
    {
        if s[i + k] != p[k] {
            assert(s@.subrange(i as int, i + m)[k as int] != p@[k as int]);
            return false;
        }
        k = k + 1;
    }
    assert(s@.subrange(i as int, i + m) =~= p@);
    true
}

/// First occurrence of `p` at or after `from`.
pub fn find_bytes_from(s: &[u8], p: &[u8], from: usize) -> (r: Option<usize>)
    ensures
        match r {
            Some(i) => bytes_find_from(s@, p@, from as int) == Some(i as int),
            None => bytes_find_from(s@, p@, from as int) is None,
        },
{
    let n = s.len();
    let m = p.len();
    if m > n || from > n - m {
        return None;
    }
    let last = n - m;
    let mut i = from;
    while i <= last
        invariant
            n == s@.len(),
            m == p@.len(),
            last == n - m,
            from <= i,
            bytes_find_from(s@, p@, from as int) == bytes_find_from(s@, p@, i as int),
        decreases last + 1 - i,
    {
        if bytes_at_exec(s, p, i) {
            return Some(i);
        }
        if i == last {
            assert(bytes_find_from(s@, p@, i + 1) is None);
            return None;
        }
        i = i + 1;
    }
    None
}

/// Whether `p` occurs in `s`.
pub fn contains_bytes(s: &[u8], p: &[u8]) -> (r: bool)
    ensures
        r == bytes_contains(s@, p@),
{
    find_bytes_from(s, p, 0).is_some()
}

// ---------------------------------------------------------------------------
// Line comments
// ---------------------------------------------------------------------------

/// First index of byte `b` in `s`.
pub open spec fn byte_index(s: Seq<u8>, b: u8) -> Option<int> {
    if exists|i: int| 0 <= i < s.len() && s[i] == b {
        Some(choose|i: int| 0 <= i < s.len() && s[i] == b && forall|j: int| 0 <= j < i ==> s[j] != b)
    } else {
        None
    }
}

/// A line without the carriage return of a CRLF ending.
pub open spec fn drop_cr(l: Seq<u8>) -> Seq<u8> {
    if l.len() > 0 && l.last() == 13u8 {
        l.drop_last()
    } else {
        l
    }
}

/// Lines of a text as `str::lines` gives them: split at `\n`, a `\r` before the
/// `\n` dropped, no empty line after a final `\n`.
pub open spec fn lines_of(s: Seq<u8>) -> Seq<Seq<u8>>
    decreases s.len(),
{
    if s.len() == 0 {
        Seq::empty()
    } else {
        match byte_index(s, 10u8) {
            Some(i) => if 0 <= i < s.len() {
                seq![drop_cr(s.take(i))] + lines_of(s.skip(i + 1))
            } else {
                seq![s]
            },
            None => seq![s],
        }
    }
}

/// The part of a line before `//`.
pub open spec fn before_comment(l: Seq<u8>) -> Seq<u8> {
    match bytes_find_from(l, seq![47u8, 47u8], 0) {
        Some(i) => l.take(i),
        None => l,
    }
}

/// Lines joined with `\n`.
pub open spec fn join_lines(ls: Seq<Seq<u8>>) -> Seq<u8>
    decreases ls.len(),
{
    if ls.len() == 0 {
        Seq::empty()
    } else if ls.len() == 1 {
        ls[0]
    } else {
        join_lines(ls.drop_last()) + seq![10u8] + ls.last()
    }
}

/// Lines with their comments removed, joined with `\n`.
pub open spec fn clean_join(ls: Seq<Seq<u8>>) -> Seq<u8> {
    join_lines(ls.map_values(|l: Seq<u8>| before_comment(l)))
}

/// Source with every `//` comment removed from each line.
pub open spec fn strip_comments(s: Seq<u8>) -> Seq<u8> {
    clean_join(lines_of(s))
}

fn byte_index_exec(s: &[u8], from: usize, b: u8) -> (r: Option<usize>)
    requires
        from <= s@.len(),
    ensures
        match r {
            Some(i) => from <= i < s@.len() && s@[i as int] == b && forall|j: int| from <= j < i ==> s@[j] != b,
            None => forall|j: int| from <= j < s@.len() ==> s@[j] != b,
        },
{
    let mut i = from;
    while i < s.len()
        invariant
            from <= i <= s@.len(),
            forall|j: int| from <= j < i ==> s@[j] != b,
        decreases s.len() - i,
    {
        if s[i] == b {
            return Some(i);
        }
        i = i + 1;
    }
    None
}

fn slice_bytes(s: &[u8], a: usize, b: usize) -> (r: Vec<u8>)
    requires
        a <= b <= s@.len(),
    ensures
        r@ == s@.subrange(a as int, b as int),
{
    let mut r: Vec<u8> = Vec::new();
    let mut i = a;
    while i < b
        invariant
            a <= i <= b,
            b <= s@.len(),
            r@ == s@.subrange(a as int, i as int),
        decreases b - i,
    {
        r.push(s[i]);
        i = i + 1;
        assert(r@ =~= s@.subrange(a as int, i as int));
    }
    r
}

proof fn lemma_lines_step(s: Seq<u8>, pos: int, nl: int)
    requires
        0 <= pos <= nl < s.len(),
        s[nl] == 10u8,
        forall|j: int| pos <= j < nl ==> s[j] != 10u8,
    ensures
        lines_of(s.skip(pos)) == seq![drop_cr(s.subrange(pos, nl))] + lines_of(s.skip(nl + 1)),
{
    reveal(lines_of);
    let t = s.skip(pos);
    let i = nl - pos;
    assert(t[i] == 10u8);
    let k = byte_index(t, 10u8);
    assert(k == Some(i)) by {
        let c = choose|c: int| 0 <= c < t.len() && t[c] == 10u8 && forall|j: int| 0 <= j < c ==> t[j] != 10u8;
        if c < i {
            assert(t[c] == s[pos + c]);
        }
        if c > i {
            assert(t[i] != 10u8);
        }
    }
    assert(t.take(i) =~= s.subrange(pos, nl));
    assert(t.skip(i + 1) =~= s.skip(nl + 1));
}

proof fn lemma_lines_empty()
    ensures
        lines_of(Seq::<u8>::empty()) == Seq::<Seq<u8>>::empty(),
{
    reveal(lines_of);
}

proof fn lemma_lines_last(s: Seq<u8>, pos: int)
    requires
        0 <= pos < s.len(),
        forall|j: int| pos <= j < s.len() ==> s[j] != 10u8,
    ensures
        lines_of(s.skip(pos)) == seq![s.skip(pos)],
{
    reveal(lines_of);
    let t = s.skip(pos);
    assert forall|j: int| 0 <= j < t.len() implies t[j] != 10u8 by {
        assert(t[j] == s[pos + j]);
    }
}

fn drop_cr_exec(l: Vec<u8>) -> (r: Vec<u8>)
    ensures
        r@ == drop_cr(l@),
{
    let ghost l0 = l@;
    let mut l = l;
    let n = l.len();
    if n > 0 && l[n - 1] == 13u8 {
        let _ = l.pop();
        assert(l@ =~= l0.drop_last());
    }
    l
}

fn before_comment_exec(l: &[u8]) -> (r: Vec<u8>)
    ensures
        r@ == before_comment(l@),
{
    let slash2: [u8; 2] = [47u8, 47u8];
    assert(slash2@ =~= seq![47u8, 47u8]);
    match find_bytes_from(l, &slash2, 0) {
        Some(i) => {
            proof {
                lemma_find_from_bounds(l@, seq![47u8, 47u8], 0);
            }
            slice_bytes(l, 0, i)
        },
        None => slice_bytes(l, 0, l.len()),
    }
}

fn push_piece(out: &mut Vec<u8>, piece: &[u8], sep: bool)
    ensures
        final(out)@ == (if sep {
            old(out)@.push(10u8)
        } else {
            old(out)@
        }) + piece@,
{
    if sep {
        out.push(10u8);
    }
    let ghost base = out@;
    let mut k: usize = 0;
    while k < piece.len()
        invariant
            k <= piece@.len(),
            out@ == base + piece@.take(k as int),
        decreases piece.len() - k,
    {
        out.push(piece[k]);
        k = k + 1;
        assert(out@ =~= base + piece@.take(k as int));
    }
    assert(piece@.take(piece@.len() as int) =~= piece@);
}

proof fn lemma_join_push(done: Seq<Seq<u8>>, line: Seq<u8>)
    ensures
        clean_join(done.push(line)) == (if done.len() == 0 {
            before_comment(line)
        } else {
            clean_join(done) + seq![10u8] + before_comment(line)
        }),
{
    let mapped = done.push(line).map_values(|l: Seq<u8>| before_comment(l));
    assert(mapped.drop_last() =~= done.map_values(|l: Seq<u8>| before_comment(l)));
    assert(mapped.last() == before_comment(line));
}

/// Removes `//` line comments, line by line, and rejoins the lines with `\n`.
pub fn strip_line_comments(source: &[u8]) -> (r: Vec<u8>)
    ensures
        r@ == strip_comments(source@),
{
    let ghost s = source@;
    let mut out: Vec<u8> = Vec::new();
    let ghost mut done: Seq<Seq<u8>> = Seq::empty();
    let mut pos: usize = 0;
    let mut started = false;
    let n = source.len();
    assert(s.skip(0) =~= s);
    while pos < n
        invariant
            n == s.len(),
            s == source@,
            pos <= n,
            lines_of(s) == done + lines_of(s.skip(pos as int)),
            started == (done.len() > 0),
            out@ == clean_join(done),
        decreases n - pos,
    {
        match byte_index_exec(source, pos, 10u8) {
            Some(nl) => {
                proof {
                    lemma_lines_step(s, pos as int, nl as int);
                }
                let raw = slice_bytes(source, pos, nl);
                let line = drop_cr_exec(raw);
                let piece = before_comment_exec(line.as_slice());
                push_piece(&mut out, piece.as_slice(), started);
                proof {
                    lemma_join_push(done, line@);
                    done = done.push(line@);
                    assert(lines_of(s) =~= done + lines_of(s.skip(nl + 1)));
                }
                pos = nl + 1;
                started = true;
            },
            None => {
                proof {
                    lemma_lines_last(s, pos as int);
                }
                let line = slice_bytes(source, pos, n);
                assert(line@ =~= s.skip(pos as int));
                let piece = before_comment_exec(line.as_slice());
                push_piece(&mut out, piece.as_slice(), started);
                proof {
                    lemma_join_push(done, line@);
                    done = done.push(line@);
                    assert(s.skip(n as int) =~= Seq::<u8>::empty());
                    lemma_lines_empty();
                    assert(lines_of(s) =~= done + lines_of(s.skip(n as int)));
                }
                pos = n;
                started = true;
            },
        }
    }
    proof {
        assert(s.skip(n as int) =~= Seq::<u8>::empty());
        lemma_lines_empty();
        assert(done =~= lines_of(s));
    }
    out
}


// ---------------------------------------------------------------------------
// Parenthesized arguments
// ---------------------------------------------------------------------------

/// Scan for the parenthesis that closes the one opening the scan, skipping
/// quoted text (`'`, `"`, backquote, with `\` escapes). `start` is where the
/// content begins, or -1 before the first `(`.
pub open spec fn paren_scan(s: Seq<u8>, i: int, depth: nat, quote: Option<u8>, escaped: bool, start: int) -> Option<Seq<u8>>
    decreases s.len() - i,
{
    if i < 0 || i >= s.len() {
        None
    } else {
        let b = s[i];
        match quote {
            Some(q) => if escaped {
                paren_scan(s, i + 1, depth, quote, false, start)
            } else if b == 92u8 {
                paren_scan(s, i + 1, depth, quote, true, start)
            } else if b == q {
                paren_scan(s, i + 1, depth, None, false, start)
            } else {
                paren_scan(s, i + 1, depth, quote, false, start)
            },
            None => if b == 39u8 || b == 34u8 || b == 96u8 {
                paren_scan(s, i + 1, depth, Some(b), escaped, start)
            } else if b == 40u8 {
                paren_scan(s, i + 1, depth + 1, None, escaped, if depth == 0 { i + 1 } else { start })
            } else if b == 41u8 {
                let d: nat = if depth == 0 { 0 } else { (depth - 1) as nat };
                if d == 0 {
                    if 0 <= start <= i {
                        Some(s.subrange(start, i))
                    } else {
                        None
                    }
                } else {
                    paren_scan(s, i + 1, d, None, escaped, start)
                }
            } else {
                paren_scan(s, i + 1, depth, None, escaped, start)
            },
        }
    }
}

/// Text between the `(` at `open` and its matching `)`.
pub open spec fn paren_content(s: Seq<u8>, open: int) -> Option<Seq<u8>> {
    if 0 <= open < s.len() && s[open] == 40u8 {
        paren_scan(s, open, 0, None, false, -1)
    } else {
        None
    }
}

/// Extracts the text inside the parentheses opened at `open`.
pub fn extract_parenthesized(source: &[u8], open: usize) -> (r: Option<Vec<u8>>)
    ensures
        match r {
            Some(v) => paren_content(source@, open as int) == Some(v@) && open + 1 + v@.len() < source@.len(),
            None => paren_content(source@, open as int) is None,
        },
{
    let n = source.len();
    if open >= n || source[open] != 40u8 {
        return None;
    }
    let ghost s = source@;
    let mut depth: usize = 0;
    let mut quote: Option<u8> = None;
    let mut escaped = false;
    let mut start: usize = 0;
    let mut has_start = false;
    let mut i = open;
    while i < n
        invariant
            n == s.len(),
            s == source@,
            open < n,
            s[open as int] == 40u8,
            open <= i <= n,
            depth <= i - open,
            i > open ==> has_start && start == open + 1 && depth >= 1,
            i == open ==> !has_start && depth == 0 && quote is None && !escaped,
            paren_content(s, open as int) == paren_scan(
                s,
                i as int,
                depth as nat,
                quote,
                escaped,
                if has_start { start as int } else { -1 },
            ),
        decreases n - i,
    {
        let b = source[i];
        match quote {
            Some(q) => {
                if escaped {
                    escaped = false;
                } else if b == 92u8 {
                    escaped = true;
                } else if b == q {
                    quote = None;
                }
            },
            None => {
                if b == 39u8 || b == 34u8 || b == 96u8 {
                    quote = Some(b);
                } else if b == 40u8 {
                    if depth == 0 {
                        start = i + 1;
                        has_start = true;
                    }
                    depth = depth + 1;
                } else if b == 41u8 {
                    if depth > 0 {
                        depth = depth - 1;
                    }
                    if depth == 0 {
                        return Some(slice_bytes(source, start, i));
                    }
                }
            },
        }
        i = i + 1;
    }
    None
}

/// Arguments of each call of `name` (given as the bytes of `needle`, the name
/// followed by `(`), scanning on from `cursor`.
pub open spec fn capture_from(s: Seq<u8>, needle: Seq<u8>, name_len: int, cursor: int) -> Seq<Seq<u8>>
    decreases s.len() + 1 - cursor,
{
    if cursor < 0 || cursor > s.len() {
        Seq::empty()
    } else {
        match bytes_find_from(s, needle, cursor) {
            None => Seq::empty(),
            Some(idx) => match paren_content(s, idx + name_len) {
                None => Seq::empty(),
                Some(v) => {
                    let next = idx + name_len + v.len() + 2;
                    if cursor < next <= s.len() {
                        seq![v] + capture_from(s, needle, name_len, next)
                    } else {
                        seq![v]
                    }
                },
            },
        }
    }
}

/// Arguments of every call `name(...)` in `s`.
pub open spec fn capture_args(s: Seq<u8>, name: Seq<u8>) -> Seq<Seq<u8>> {
    capture_from(s, name.push(40u8), name.len() as int, 0)
}

/// The argument texts of every call of `name` in the source.
pub fn capture_function_args(source: &[u8], name: &[u8]) -> (r: Vec<Vec<u8>>)
    ensures
        r@.len() == capture_args(source@, name@).len(),
        forall|i: int| 0 <= i < r@.len() ==> #[trigger] r@[i]@ == capture_args(source@, name@)[i],
{
    let ghost s = source@;
    let mut needle: Vec<u8> = Vec::new();
    let mut k: usize = 0;
    while k < name.len()
        invariant
            k <= name@.len(),
            needle@ == name@.take(k as int),
        decreases name.len() - k,
    {
        needle.push(name[k]);
        k = k + 1;
        assert(needle@ =~= name@.take(k as int));
    }
    needle.push(40u8);
    assert(needle@ =~= name@.push(40u8));
    let ghost nd = needle@;
    let ghost nl = name@.len() as int;
    let ghost total = capture_args(s, name@);
    let mut args: Vec<Vec<u8>> = Vec::new();
    let ghost mut got: Seq<Seq<u8>> = Seq::empty();
    let mut cursor: usize = 0;
    let n = source.len();
    while cursor <= n
        invariant
            n == s.len(),
            s == source@,
            nd == needle@,
            nd == name@.push(40u8),
            nl == name@.len(),
            cursor <= n,
            total == capture_args(s, name@),
            total == got + capture_from(s, nd, nl, cursor as int),
            args@.len() == got.len(),
            forall|i: int| 0 <= i < args@.len() ==> #[trigger] args@[i]@ == got[i],
        decreases n + 1 - cursor,
    {
        match find_bytes_from(source, needle.as_slice(), cursor) {
            Some(index) => {
                proof {
                    lemma_find_from_bounds(s, nd, cursor as int);
                }
                let open = index + name.len();
                match extract_parenthesized(source, open) {
                    Some(value) => {
                        let next = open + value.len() + 2;
                        proof {
                            got = got.push(value@);
                            assert(total =~= got + capture_from(s, nd, nl, next as int));
                        }
                        args.push(value);
                        cursor = next;
                    },
                    None => {
                        proof {
                            assert(total =~= got);
                        }
                        return args;
                    },
                }
            },
            None => {
                proof {
                    assert(total =~= got);
                }
                return args;
            },
        }
    }
    args
}

// ---------------------------------------------------------------------------
// String literals
// ---------------------------------------------------------------------------

/// First byte at or after `i` that is not a space, tab, CR or LF.
pub open spec fn skip_ws_from(s: Seq<u8>, i: int) -> int
    decreases s.len() - i,
{
    if 0 <= i < s.len() && (s[i] == 32u8 || s[i] == 10u8 || s[i] == 13u8 || s[i] == 9u8) {
        skip_ws_from(s, i + 1)
    } else {
        i
    }
}

/// Character an escaped byte stands for.
pub open spec fn unescape(b: u8) -> char {
    if b == 110u8 {
        '\n'
    } else if b == 114u8 {
        '\r'
    } else if b == 116u8 {
        '\t'
    } else {
        b as char
    }
}

/// Literal contents from `i` up to the closing `quote`, and the index after it.
pub open spec fn lit_scan(s: Seq<u8>, i: int, quote: u8, escaped: bool, acc: Seq<char>) -> Option<(Seq<char>, int)>
    decreases s.len() - i,
{
    if i < 0 || i >= s.len() {
        None
    } else {
        let b = s[i];
        if escaped {
            lit_scan(s, i + 1, quote, false, acc.push(unescape(b)))
        } else if b == 92u8 {
            lit_scan(s, i + 1, quote, true, acc)
        } else if b == quote {
            Some((acc, i + 1))
        } else {
            lit_scan(s, i + 1, quote, false, acc.push(b as char))
        }
    }
}

/// The string literal starting at `start` (after blanks), with the index after it.
pub open spec fn literal_at(s: Seq<u8>, start: int) -> Option<(Seq<char>, int)> {
    let i = skip_ws_from(s, start);
    if 0 <= i < s.len() && (s[i] == 39u8 || s[i] == 34u8 || s[i] == 96u8) {
        lit_scan(s, i + 1, s[i], false, Seq::empty())
    } else {
        None
    }
}

/// Every string literal found scanning from `index`.
pub open spec fn literals_from(s: Seq<u8>, index: int) -> Seq<Seq<char>>
    decreases s.len() - index,
{
    if index < 0 || index >= s.len() {
        Seq::empty()
    } else {
        match literal_at(s, index) {
            Some((v, end)) => if index < end <= s.len() {
                seq![v] + literals_from(s, end)
            } else {
                seq![v]
            },
            None => literals_from(s, index + 1),
        }
    }
}

fn skip_ws(bytes: &[u8], index: usize) -> (r: usize)
    requires
        index <= bytes@.len(),
    ensures
        r == skip_ws_from(bytes@, index as int),
        index <= r <= bytes@.len(),
{
    let mut i = index;
    while i < bytes.len() && (bytes[i] == 32u8 || bytes[i] == 10u8 || bytes[i] == 13u8 || bytes[i] == 9u8)
        invariant
            index <= i <= bytes@.len(),
            skip_ws_from(bytes@, index as int) == skip_ws_from(bytes@, i as int),
        decreases bytes.len() - i,
    {
        i = i + 1;
    }
    i
}

fn unescape_exec(b: u8) -> (c: char)
    ensures
        c == unescape(b),
{
    if b == 110u8 {
        '\n'
    } else if b == 114u8 {
        '\r'
    } else if b == 116u8 {
        '\t'
    } else {
        b as char
    }
}

/// Parses the string literal starting at `start` (after blanks); `None` where
/// there is none, `start` past the end included.
pub fn parse_string_literal_at(source: &[u8], start: usize) -> (r: Option<(String, usize)>)
    ensures
        match r {
            Some((v, end)) => literal_at(source@, start as int) == Some((v@, end as int)) && start < end <= source@.len(),
            None => literal_at(source@, start as int) is None,
        },
{
    let ghost s = source@;
    let n = source.len();
    if start > n {
        return None;
    }
    let q = skip_ws(source, start);
    if q >= n {
        return None;
    }
    let quote = source[q];
    if quote != 39u8 && quote != 34u8 && quote != 96u8 {
        return None;
    }
    let mut value = String::new();
    let mut escaped = false;
    let mut i = q + 1;
    while i < n
        invariant
            n == s.len(),
            s == source@,
            start <= q < i <= n,
            quote == s[q as int],
            literal_at(s, start as int) == lit_scan(s, i as int, quote, escaped, value@),
        decreases n - i,
    {
        let b = source[i];
        if escaped {
            push_char(&mut value, unescape_exec(b));
            escaped = false;
        } else if b == 92u8 {
            escaped = true;
        } else if b == quote {
            return Some((value, i + 1));
        } else {
            push_char(&mut value, b as char);
        }
        i = i + 1;
    }
    None
}

/// Every string literal in the source, in order.
pub fn string_literals(source: &[u8]) -> (r: Vec<String>)
    ensures
        r@.len() == literals_from(source@, 0).len(),
        forall|i: int| 0 <= i < r@.len() ==> #[trigger] r@[i]@ == literals_from(source@, 0)[i],
{
    let ghost s = source@;
    let ghost total = literals_from(s, 0);
    let ghost mut got: Seq<Seq<char>> = Seq::empty();
    let mut values: Vec<String> = Vec::new();
    let mut index: usize = 0;
    let n = source.len();
    while index < n
        invariant
            n == s.len(),
            s == source@,
            index <= n,
            total == literals_from(s, 0),
            total == got + literals_from(s, index as int),
            values@.len() == got.len(),
            forall|i: int| 0 <= i < values@.len() ==> #[trigger] values@[i]@ == got[i],
        decreases n - index,
    {
        match parse_string_literal_at(source, index) {
            Some((value, end)) => {
                proof {
                    got = got.push(value@);
                    assert(total =~= got + literals_from(s, end as int));
                }
                values.push(value);
                index = end;
            },
            None => {
                index = index + 1;
            },
        }
    }
    proof {
        assert(total =~= got);
    }
    values
}

// ---------------------------------------------------------------------------
// De-duplication
// ---------------------------------------------------------------------------

/// First occurrences only, in order.
pub open spec fn dedupe(xs: Seq<Seq<char>>) -> Seq<Seq<char>>
    decreases xs.len(),
{
    if xs.len() == 0 {
        Seq::empty()
    } else {
        let d = dedupe(xs.drop_last());
        if d.contains(xs.last()) {
            d
        } else {
            d.push(xs.last())
        }
    }
}

/// Keeps the first occurrence of each value, in order.
pub fn dedupe_strings(values: &mut Vec<String>)
    ensures
        final(values)@.len() == dedupe(old(values)@.map_values(|v: String| v@)).len(),
        forall|i: int| 0 <= i < final(values)@.len() ==> #[trigger] final(values)@[i]@ == dedupe(
            old(values)@.map_values(|v: String| v@),
        )[i],
{
    let ghost all = values@.map_values(|v: String| v@);
    let mut out: Vec<String> = Vec::new();
    let mut i: usize = 0;
    while i < values.len()
        invariant
            i <= values@.len(),
            all == values@.map_values(|v: String| v@),
            out@.len() == dedupe(all.take(i as int)).len(),
            forall|k: int| 0 <= k < out@.len() ==> #[trigger] out@[k]@ == dedupe(all.take(i as int))[k],
        decreases values.len() - i,
    {
        let ghost d = dedupe(all.take(i as int));
        assert(all.take(i + 1).drop_last() =~= all.take(i as int));
        assert(all.take(i + 1).last() == values@[i as int]@);
        let mut seen = false;
        let mut j: usize = 0;
        while j < out.len()
            invariant
                i < values@.len(),
                j <= out@.len(),
                out@.len() == d.len(),
                forall|k: int| 0 <= k < out@.len() ==> #[trigger] out@[k]@ == d[k],
                seen == (exists|k: int| 0 <= k < j && d[k] == values@[i as int]@),
            decreases out.len() - j,
        {
            if crate::text::str_eq(out[j].as_str(), values[i].as_str()) {
                seen = true;
            }
            j = j + 1;
        }
        proof {
            if d.contains(values@[i as int]@) {
                let k = choose|k: int| 0 <= k < d.len() && d[k] == values@[i as int]@;
                assert(out@[k]@ == d[k]);
            }
        }
        if !seen {
            out.push(values[i].clone());
        }
        i = i + 1;
    }
    assert(all.take(values.len() as int) =~= all);
    *values = out;
}

} // verus!
