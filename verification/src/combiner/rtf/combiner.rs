//! Byte-level concatenation of RTF documents: the first header, then every
//! body in order with a page break between files, then one closing brace.

use vstd::prelude::*;

verus! {

/// The control word at which the body of an RTF document starts: `\widowctrl`.
pub open spec fn body_mark() -> Seq<u8> {
    seq![92u8, 119u8, 105u8, 100u8, 111u8, 119u8, 99u8, 116u8, 114u8, 108u8]
}

/// The group written between two documents: `{\page\par}`.
pub open spec fn page_break() -> Seq<u8> {
    seq![123u8, 92u8, 112u8, 97u8, 103u8, 101u8, 92u8, 112u8, 97u8, 114u8, 125u8]
}

/// The closing brace `}`.
pub open spec fn closing_brace() -> u8 {
    125u8
}

/// `pattern` stands in `source` at index `i`.
pub open spec fn occurs_at(pattern: Seq<u8>, source: Seq<u8>, i: int) -> bool {
    &&& 0 <= i
    &&& i + pattern.len() <= source.len()
    &&& source.subrange(i, i + pattern.len()) == pattern
}

/// `start` is the least index from `from` on at which `pattern` stands in `source`.
pub open spec fn first_occurrence(pattern: Seq<u8>, source: Seq<u8>, from: int, start: int) -> bool {
    &&& from <= start
    &&& occurs_at(pattern, source, start)
    &&& forall|i: int| from <= i < start ==> !occurs_at(pattern, source, i)
}

/// `end` is the index of the last closing brace of `data`.
pub open spec fn last_brace(data: Seq<u8>, end: int) -> bool {
    &&& 0 <= end < data.len()
    &&& data[end] == closing_brace()
    &&& forall|i: int| end < i < data.len() ==> data[i] != closing_brace()
}

/// The body of `data` runs from `start`, where the body mark first stands, up
/// to `end`, the last closing brace, which comes after the mark.
pub open spec fn content_bounds(data: Seq<u8>, start: int, end: int) -> bool {
    &&& first_occurrence(body_mark(), data, 0, start)
    &&& last_brace(data, end)
    &&& start < end
}

/// `data` has a header and a body.
pub open spec fn well_formed(data: Seq<u8>) -> bool {
    exists|start: int, end: int| content_bounds(data, start, end)
}

/// The bounds of the body of a well-formed document.
pub open spec fn bounds(data: Seq<u8>) -> (int, int) {
    choose|p: (int, int)| content_bounds(data, p.0, p.1)
}

/// What precedes the body mark.
pub open spec fn header(data: Seq<u8>) -> Seq<u8> {
    data.subrange(0, bounds(data).0)
}

/// From the body mark up to, and without, the last closing brace.
pub open spec fn body(data: Seq<u8>) -> Seq<u8> {
    data.subrange(bounds(data).0, bounds(data).1)
}

/// One of the first `n` documents is well formed, so the header is out.
pub open spec fn header_written(files: Seq<Seq<u8>>, n: int) -> bool {
    exists|k: int| 0 <= k < n && well_formed(#[trigger] files[k])
}

/// What document `i` contributes: nothing if it is not well formed; else the
/// header if none was written yet, the body, and a page break unless `i` is
/// the last index.
pub open spec fn piece(files: Seq<Seq<u8>>, i: int) -> Seq<u8> {
    if well_formed(files[i]) {
        (if header_written(files, i) {
            Seq::<u8>::empty()
        } else {
            header(files[i])
        }) + body(files[i]) + (if i + 1 < files.len() {
            page_break()
        } else {
            Seq::<u8>::empty()
        })
    } else {
        Seq::<u8>::empty()
    }
}

/// The output after the first `n` documents.
pub open spec fn emitted(files: Seq<Seq<u8>>, n: int) -> Seq<u8>
    decreases n,
{
    if n <= 0 {
        Seq::<u8>::empty()
    } else {
        emitted(files, n - 1) + piece(files, n - 1)
    }
}

/// The combined document.
pub open spec fn combined(files: Seq<Seq<u8>>) -> Seq<u8> {
    emitted(files, files.len() as int).push(closing_brace())
}

/// The contents of a list of byte vectors.
pub open spec fn contents(files: Seq<Vec<u8>>) -> Seq<Seq<u8>> {
    files.map_values(|f: Vec<u8>| f@)
}

/// The bodies of the first `n` documents with a page break between each two.
pub open spec fn joined_bodies(files: Seq<Seq<u8>>, n: int) -> Seq<u8>
    decreases n,
{
    if n <= 0 {
        Seq::<u8>::empty()
    } else if n == 1 {
        body(files[0])
    } else {
        joined_bodies(files, n - 1) + page_break() + body(files[n - 1])
    }
}

/// The bounds of a body are unique.
pub proof fn lemma_bounds_unique(data: Seq<u8>, s1: int, e1: int, s2: int, e2: int)
    requires
        content_bounds(data, s1, e1),
        content_bounds(data, s2, e2),
    ensures
        s1 == s2,
        e1 == e2,
{
    if s1 < s2 {
        assert(!occurs_at(body_mark(), data, s1));
    }
    if s2 < s1 {
        assert(!occurs_at(body_mark(), data, s2));
    }
    if e1 < e2 {
        assert(data[e2] != closing_brace());
    }
    if e2 < e1 {
        assert(data[e1] != closing_brace());
    }
}

/// Every document of the list is well formed.
pub open spec fn all_well_formed(files: Seq<Seq<u8>>) -> bool {
    forall|i: int| 0 <= i < files.len() ==> well_formed(#[trigger] files[i])
}

/// After `n` well-formed documents the output is the first header and the
/// first `n` bodies, with a page break behind them unless they are all.
proof fn lemma_emitted_of_well_formed(files: Seq<Seq<u8>>, n: int)
    requires
        all_well_formed(files),
        1 <= n <= files.len(),
    ensures
        emitted(files, n) == header(files[0]) + joined_bodies(files, n) + (if n < files.len() {
            page_break()
        } else {
            Seq::<u8>::empty()
        }),
    decreases n,
{
    if n == 1 {
        assert(emitted(files, 0) =~= Seq::<u8>::empty());
        assert(!header_written(files, 0));
        assert(emitted(files, 1) =~= header(files[0]) + joined_bodies(files, 1) + (if 1
            < files.len() {
            page_break()
        } else {
            Seq::<u8>::empty()
        }));
    } else {
        lemma_emitted_of_well_formed(files, n - 1);
        assert(well_formed(files[0]));
        assert(header_written(files, n - 1));
        assert(emitted(files, n) =~= header(files[0]) + joined_bodies(files, n) + (if n
            < files.len() {
            page_break()
        } else {
            Seq::<u8>::empty()
        }));
    }
}

/// Combining well-formed documents gives the header of the first one once,
/// then the body of each in order with one page break between each two, then
/// one closing brace.
pub proof fn lemma_combined_of_well_formed(files: Seq<Seq<u8>>)
    requires
        files.len() > 0,
        all_well_formed(files),
    ensures
        combined(files) == header(files[0]) + joined_bodies(files, files.len() as int) + seq![
            closing_brace(),
        ],
{
    lemma_emitted_of_well_formed(files, files.len() as int);
    assert(combined(files) =~= header(files[0]) + joined_bodies(files, files.len() as int)
        + seq![closing_brace()]);
}

/// Whether `pattern` stands in `source` at `start`.
fn matches_at(pattern: &[u8], source: &[u8], start: usize) -> (b: bool)
    requires
        start + pattern@.len() <= source@.len(),
    ensures
        b == occurs_at(pattern@, source@, start as int),
{
    let n = pattern.len();
    let total = source.len();
    let mut k: usize = 0;
    while k < n
        invariant
            n == pattern@.len(),
            total == source@.len(),
            k <= n,
            start + n <= total,
            forall|j: int| 0 <= j < k ==> source@[start + j] == pattern@[j],
        decreases n - k,
    {
        if source[start + k] != pattern[k] {
            assert(source@.subrange(start as int, start + n)[k as int] != pattern@[k as int]);
            return false;
        }
        k = k + 1;
    }
    assert(source@.subrange(start as int, start + n) =~= pattern@);
    true
}

/// Finds where `pattern` first stands in `source` at or after `pointer`, and
/// returns the indices of its first byte and of the byte behind its last.
pub fn pattern_position(pattern: &[u8], source: &[u8], pointer: usize) -> (r: Option<
    (usize, usize),
>)
    ensures
        match r {
            Some((start, end)) => first_occurrence(
                pattern@,
                source@,
                pointer as int,
                start as int,
            ) && end == start + pattern@.len(),
            None => forall|i: int| pointer <= i ==> !occurs_at(pattern@, source@, i),
        },
{
    let plen = pattern.len();
    let slen = source.len();
    if plen > slen || pointer > slen - plen {
        return None;
    }
    let last = slen - plen;
    let mut start = pointer;
    loop
        invariant
            plen == pattern@.len(),
            slen == source@.len(),
            last == slen - plen,
            pointer <= start <= last,
            forall|i: int| pointer <= i < start ==> !occurs_at(pattern@, source@, i),
        decreases last - start,
    {
        if matches_at(pattern, source, start) {
            return Some((start, start + plen));
        }
        if start == last {
            return None;
        }
        start = start + 1;
    }
}

/// The bytes of the body mark.
fn body_mark_bytes() -> (r: Vec<u8>)
    ensures
        r@ == body_mark(),
{
    let r = vec![92u8, 119u8, 105u8, 100u8, 111u8, 119u8, 99u8, 116u8, 114u8, 108u8];
    assert(r@ =~= body_mark());
    r
}

/// The bytes of the page break.
fn page_break_bytes() -> (r: Vec<u8>)
    ensures
        r@ == page_break(),
{
    let r = vec![123u8, 92u8, 112u8, 97u8, 103u8, 101u8, 92u8, 112u8, 97u8, 114u8, 125u8];
    assert(r@ =~= page_break());
    r
}

/// The index of the last closing brace of `data`, if it has one.
fn last_brace_position(data: &[u8]) -> (r: Option<usize>)
    ensures
        match r {
            Some(end) => last_brace(data@, end as int),
            None => forall|i: int| 0 <= i < data@.len() ==> data@[i] != closing_brace(),
        },
{
    let mut i = data.len();
    while i > 0
        invariant
            i <= data@.len(),
            forall|j: int| i <= j < data@.len() ==> data@[j] != closing_brace(),
        decreases i,
    {
        i = i - 1;
        if data[i] == 125u8 {
            return Some(i);
        }
    }
    None
}

/// Slices a document: the index where its body starts and the index of its
/// last closing brace. `None` when the body mark or the brace is missing, or
/// when the brace does not come after the mark.
pub fn extract_file_content(data: &[u8]) -> (r: Option<(usize, usize)>)
    ensures
        match r {
            Some((start, end)) => content_bounds(data@, start as int, end as int),
            None => !well_formed(data@),
        },
{
    let mark = body_mark_bytes();
    match pattern_position(mark.as_slice(), data, 0) {
        None => {
            assert forall|s: int, e: int| !content_bounds(data@, s, e) by {
                assert(!occurs_at(body_mark(), data@, s) || s < 0);
            }
            None
        },
        Some((start, _)) => {
            match last_brace_position(data) {
                None => {
                    assert forall|s: int, e: int| !content_bounds(data@, s, e) by {
                        if last_brace(data@, e) {
                            assert(data@[e] != closing_brace());
                        }
                    }
                    None
                },
                Some(end) => {
                    if start < end {
                        Some((start, end))
                    } else {
                        assert forall|s: int, e: int| !content_bounds(data@, s, e) by {
                            if content_bounds(data@, s, e) {
                                if s < start {
                                    assert(!occurs_at(body_mark(), data@, s));
                                }
                                if start < s {
                                    assert(!occurs_at(body_mark(), data@, start as int));
                                }
                                if e < end {
                                    assert(data@[end as int] != closing_brace());
                                }
                                if end < e {
                                    assert(data@[e] != closing_brace());
                                }
                            }
                        }
                        None
                    }
                },
            }
        },
    }
}

/// Appends `data[from..to]` to `out`.
fn append_range(out: &mut Vec<u8>, data: &[u8], from: usize, to: usize)
    requires
        from <= to <= data@.len(),
    ensures
        final(out)@ == old(out)@ + data@.subrange(from as int, to as int),
{
    let mut i = from;
    while i < to
        invariant
            from <= i <= to <= data@.len(),
            out@ == old(out)@ + data@.subrange(from as int, i as int),
        decreases to - i,
    {
        out.push(data[i]);
        i = i + 1;
        assert(out@ =~= old(out)@ + data@.subrange(from as int, i as int));
    }
    assert(out@ =~= old(out)@ + data@.subrange(from as int, to as int));
}

/// Concatenates the documents in `files`: the header of the first
/// well-formed one, the body of every well-formed one, a page break behind
/// each body but that of the last file in the list, and a closing brace.
pub fn combine(files: &Vec<Vec<u8>>) -> (r: Vec<u8>)
    ensures
        r@ == combined(contents(files@)),
{
    let ghost all = contents(files@);
    let breaker = page_break_bytes();
    let mut out: Vec<u8> = Vec::new();
    let mut header_out = false;
    let n = files.len();
    let mut index: usize = 0;
    while index < n
        invariant
            n == files@.len(),
            index <= n,
            all == contents(files@),
            breaker@ == page_break(),
            out@ == emitted(all, index as int),
            header_out == header_written(all, index as int),
        decreases n - index,
    {
        let data = &files[index];
        assert(all[index as int] == data@);
        let ghost before = out@;
        match extract_file_content(data.as_slice()) {
            Some((start, end)) => {
                proof {
                    assert(well_formed(data@));
                    let p = bounds(data@);
                    lemma_bounds_unique(data@, start as int, end as int, p.0, p.1);
                }
                if !header_out {
                    append_range(&mut out, data.as_slice(), 0, start);
                    header_out = true;
                }
                append_range(&mut out, data.as_slice(), start, end);
                if index < n - 1 {
                    append_range(&mut out, breaker.as_slice(), 0, breaker.len());
                    assert(breaker@.subrange(0, breaker@.len() as int) =~= breaker@);
                }
                assert(out@ =~= before + piece(all, index as int));
                assert(header_written(all, index + 1));
            },
            None => {
                assert(piece(all, index as int) =~= Seq::<u8>::empty());
                assert(out@ =~= before + piece(all, index as int));
                assert(header_written(all, index + 1) == header_written(all, index as int));
            },
        }
        index = index + 1;
    }
    out.push(125u8);
    out
}

} // verus!
