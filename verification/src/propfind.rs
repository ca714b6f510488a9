//! Parsing of PROPFIND multi-status responses into directory listing
//! entries.
//!
//! The response is handled as plain text: it is split into response
//! blocks, and each block is scanned line by line for a display name (or,
//! failing that, a reference path whose last component names the entry)
//! and for the collection marker that distinguishes directories. All
//! searching and trimming is by character; a pattern's first occurrence
//! and the text between two tags mean the same thing here as they do
//! byte-wise, occurrence for occurrence.

use vstd::prelude::*;
use vstd::string::StrSliceExecFns;
use vstd::string::StringExecFns;
use crate::listing::DavEntry;
use crate::paths::leaf_spec;
use crate::paths::split_parent;

verus! {

/// `pat` occurs in `s` starting at position `i`.
pub open spec fn occurs_at(s: Seq<char>, pat: Seq<char>, i: int) -> bool {
    &&& 0 <= i
    &&& i + pat.len() <= s.len()
    &&& s.subrange(i, i + pat.len()) == pat
}

/// The first position at or after `i` where `pat` occurs in `s`, or `-1`
/// if there is none.
pub open spec fn find_from(s: Seq<char>, pat: Seq<char>, i: int) -> int
    decreases s.len() + 1 - i,
{
    if i < 0 {
        -1
    } else if i + pat.len() > s.len() {
        -1
    } else if occurs_at(s, pat, i) {
        i
    } else {
        find_from(s, pat, i + 1)
    }
}

/// `pat` occurs somewhere in `s`.
pub open spec fn has_sub(s: Seq<char>, pat: Seq<char>) -> bool {
    find_from(s, pat, 0) >= 0
}

/// What `find_from` answers: a non-negative result is the first
/// occurrence at or after `i`; `-1` means no occurrence at all there.
pub proof fn lemma_find_from(s: Seq<char>, pat: Seq<char>, i: int)
    requires
        i >= 0,
    ensures
        find_from(s, pat, i) >= 0 ==> {
            &&& i <= find_from(s, pat, i)
            &&& occurs_at(s, pat, find_from(s, pat, i))
            &&& forall|k: int| i <= k < find_from(s, pat, i) ==> !occurs_at(s, pat, k)
        },
        find_from(s, pat, i) == -1 ==> forall|k: int| k >= i ==> !occurs_at(s, pat, k),
    decreases s.len() + 1 - i,
{
    if i + pat.len() > s.len() {
        assert forall|k: int| k >= i implies !occurs_at(s, pat, k) by {}
    } else if !occurs_at(s, pat, i) {
        lemma_find_from(s, pat, i + 1);
    }
}

/// Whether `pat` occurs in `s` at position `i`, checked character by
/// character.
fn match_at(s: &str, pat: &str, i: usize) -> (r: bool)
    requires
        i + pat@.len() <= s@.len(),
    ensures
        r == occurs_at(s@, pat@, i as int),
{
    let n: usize = s.unicode_len();
    let m: usize = pat.unicode_len();
    let mut j: usize = 0;
    while j < m
        invariant
            n == s@.len(),
            m == pat@.len(),
            i + m <= n,
            j <= m,
            forall|k: int| 0 <= k < j ==> s@[i + k] == pat@[k],
        decreases m - j,
    {
        if s.get_char(i + j) != pat.get_char(j) {
            proof {
                assert(s@.subrange(i as int, i + m) != pat@) by {
                    assert(s@.subrange(i as int, i + m)[j as int] == s@[i + j]);
                }
            }
            return false;
        }
        j += 1;
    }
    proof {
        assert(s@.subrange(i as int, i + m) =~= pat@);
    }
    true
}

/// The first occurrence of `pat` in `s`, if any.
pub fn find_sub(s: &str, pat: &str) -> (r: Option<usize>)
    ensures
        match r {
            Some(i) => find_from(s@, pat@, 0) == i,
            None => find_from(s@, pat@, 0) == -1,
        },
{
    let n: usize = s.unicode_len();
    let m: usize = pat.unicode_len();
    if m > n {
        return None;
    }
    if m == 0 {
        proof {
            assert(s@.subrange(0, 0) =~= pat@);
        }
        return Some(0);
    }
    let mut i: usize = 0;
    while i <= n - m
        invariant
            n == s@.len(),
            m == pat@.len(),
            0 < m <= n,
            i <= n - m + 1,
            find_from(s@, pat@, 0) == find_from(s@, pat@, i as int),
        decreases n - i,
    {
        if match_at(s, pat, i) {
            return Some(i);
        }
        i += 1;
    }
    None
}

/// Whether `pat` occurs anywhere in `s`.
pub fn contains_sub(s: &str, pat: &str) -> (r: bool)
    ensures
        r == has_sub(s@, pat@),
{
    match find_sub(s, pat) {
        Some(_) => true,
        None => false,
    }
}

/// The whitespace this parser trims: blank, tab, carriage return and
/// line feed.
pub open spec fn is_space(c: char) -> bool {
    c == ' ' || c == '\t' || c == '\r' || c == '\n'
}

/// `s` without leading and trailing whitespace.
pub open spec fn trim_spec(s: Seq<char>) -> Seq<char>
    decreases s.len(),
{
    if s.len() > 0 && is_space(s.first()) {
        trim_spec(s.drop_first())
    } else if s.len() > 0 && is_space(s.last()) {
        trim_spec(s.drop_last())
    } else {
        s
    }
}

/// The trimmed form of `s` is the region between the whitespace margins.
proof fn lemma_trim_region(s: Seq<char>, lo: int, hi: int)
    requires
        0 <= lo <= hi <= s.len(),
        forall|k: int| 0 <= k < lo ==> is_space(s[k]),
        forall|k: int| hi <= k < s.len() ==> is_space(s[k]),
        lo < hi ==> !is_space(s[lo]) && !is_space(s[hi - 1]),
    ensures
        trim_spec(s) == s.subrange(lo, hi),
    decreases s.len(),
{
    if s.len() == 0 {
        assert(s.subrange(lo, hi) =~= s);
    } else if is_space(s.first()) {
        assert(lo >= 1 || lo == hi) by {
            if lo == 0 && lo < hi {
                assert(!is_space(s[0]));
            }
        }
        let t = s.drop_first();
        if lo == hi {
            lemma_trim_region(t, 0, 0);
            assert(s.subrange(lo, hi) =~= t.subrange(0, 0));
        } else {
            lemma_trim_region(t, lo - 1, hi - 1);
            assert(s.subrange(lo, hi) =~= t.subrange(lo - 1, hi - 1));
        }
    } else if is_space(s.last()) {
        assert(hi < s.len() || lo == hi) by {
            if hi == s.len() && lo < hi {
                assert(!is_space(s[hi - 1]));
            }
        }
        let t = s.drop_last();
        if lo == hi {
            assert(lo < s.len()) by {
                if lo == s.len() {
                    assert(is_space(s[0]));
                    assert(!is_space(s.first()));
                }
            }
            lemma_trim_region(t, lo, lo);
            assert(s.subrange(lo, hi) =~= t.subrange(lo, lo));
        } else {
            lemma_trim_region(t, lo, hi);
            assert(s.subrange(lo, hi) =~= t.subrange(lo, hi));
        }
    } else {
        assert(lo == 0) by {
            if lo > 0 {
                assert(is_space(s[0]));
            }
        }
        assert(hi == s.len()) by {
            if hi < s.len() {
                assert(is_space(s[s.len() - 1]));
            }
        }
        assert(s.subrange(0, s.len() as int) =~= s);
    }
}

/// Whether `c` is whitespace this parser trims.
fn is_space_char(c: char) -> (r: bool)
    ensures
        r == is_space(c),
{
    c == ' ' || c == '\t' || c == '\r' || c == '\n'
}

/// Removes leading and trailing whitespace.
pub fn trim_str(s: &str) -> (r: String)
    ensures
        r@ == trim_spec(s@),
{
    let n: usize = s.unicode_len();
    let mut lo: usize = 0;
    let mut hi: usize = n;
    while lo < hi && is_space_char(s.get_char(lo))
        invariant
            n == s@.len(),
            0 <= lo <= hi <= n,
            forall|k: int| 0 <= k < lo ==> is_space(s@[k]),
            forall|k: int| hi <= k < n ==> is_space(s@[k]),
        decreases hi - lo,
    {
        lo += 1;
    }
    while lo < hi && is_space_char(s.get_char(hi - 1))
        invariant
            n == s@.len(),
            0 <= lo <= hi <= n,
            lo < hi ==> !is_space(s@[lo as int]),
            forall|k: int| 0 <= k < lo ==> is_space(s@[k]),
            forall|k: int| hi <= k < n ==> is_space(s@[k]),
        decreases hi,
    {
        hi -= 1;
    }
    proof {
        lemma_trim_region(s@, lo as int, hi as int);
    }
    s.substring_char(lo, hi).to_owned()
}

/// The opening form of a tag.
pub open spec fn start_tag_of(tag: Seq<char>) -> Seq<char> {
    "<"@ + tag + ">"@
}

/// The closing form of a tag.
pub open spec fn end_tag_of(tag: Seq<char>) -> Seq<char> {
    "</"@ + tag + ">"@
}

/// The trimmed text standing strictly between the first occurrence of
/// `tag`'s opening form and the first occurrence of its closing form;
/// nothing when either tag is missing or no text stands strictly between
/// them.
pub open spec fn extract_spec(line: Seq<char>, tag: Seq<char>) -> Option<Seq<char>> {
    let st = start_tag_of(tag);
    let et = end_tag_of(tag);
    let s = find_from(line, st, 0);
    let e = find_from(line, et, 0);
    if s >= 0 && e >= 0 && s + st.len() < e {
        Some(trim_spec(line.subrange(s + st.len(), e)))
    } else {
        None
    }
}

/// Extracts the trimmed content between `<tag>` and `</tag>` on one
/// line, if both occur and any text stands strictly between them.
pub fn extract_tag_content(line: &str, tag: &str) -> (r: Option<String>)
    ensures
        match r {
            Some(c) => extract_spec(line@, tag@) == Some(c@),
            None => extract_spec(line@, tag@) is None,
        },
{
    let start_tag: String = "<".to_owned().concat(tag).concat(">");
    let end_tag: String = "</".to_owned().concat(tag).concat(">");
    proof {
        assert(start_tag@ == start_tag_of(tag@));
        assert(end_tag@ == end_tag_of(tag@));
    }
    match find_sub(line, start_tag.as_str()) {
        Some(s_idx) => {
            match find_sub(line, end_tag.as_str()) {
                Some(e_idx) => {
                    let line_len: usize = line.unicode_len();
                    proof {
                        lemma_find_from(line@, start_tag@, 0);
                        lemma_find_from(line@, end_tag@, 0);
                        assert(s_idx + start_tag@.len() <= line_len);
                    }
                    let content_start: usize = s_idx + start_tag.as_str().unicode_len();
                    if content_start < e_idx {
                        let content = line.substring_char(content_start, e_idx);
                        Some(trim_str(content))
                    } else {
                        None
                    }
                },
                None => None,
            }
        },
        None => None,
    }
}

/// The pieces of `s` between non-overlapping occurrences of `sep`,
/// leftmost occurrence first: one piece when `sep` never occurs.
pub open spec fn split_sub(s: Seq<char>, sep: Seq<char>) -> Seq<Seq<char>>
    decreases s.len() when sep.len() > 0
{
    let i = find_from(s, sep, 0);
    if i < 0 || i + sep.len() > s.len() {
        seq![s]
    } else {
        seq![s.take(i)] + split_sub(s.skip(i + sep.len()), sep)
    }
}

/// Splits `s` on every occurrence of `sep`.
pub fn split_on(s: &str, sep: &str) -> (r: Vec<String>)
    requires
        sep@.len() > 0,
    ensures
        r.deep_view() == split_sub(s@, sep@),
{
    let mut parts: Vec<String> = Vec::new();
    let mut rest: String = s.to_owned();
    proof {
        assert(parts.deep_view() + split_sub(rest@, sep@) =~= split_sub(s@, sep@));
    }
    loop
        invariant
            sep@.len() > 0,
            split_sub(s@, sep@) == parts.deep_view() + split_sub(rest@, sep@),
        decreases rest@.len(),
    {
        let ghost parts_pre = parts.deep_view();
        let found = find_sub(rest.as_str(), sep);
        match found {
            None => {
                let ghost rest_v = rest@;
                parts.push(rest);
                proof {
                    assert(parts.deep_view() =~= parts_pre + seq![rest_v]);
                }
                return parts;
            },
            Some(i) => {
                proof {
                    lemma_find_from(rest@, sep@, 0);
                }
                let rest_len: usize = rest.as_str().unicode_len();
                let sep_len: usize = sep.unicode_len();
                let head: String = rest.as_str().substring_char(0, i).to_owned();
                let tail: String = rest.as_str().substring_char(i + sep_len, rest_len).to_owned();
                proof {
                    assert(head@ =~= rest@.take(i as int));
                    assert(tail@ =~= rest@.skip(i + sep_len));
                    assert(split_sub(rest@, sep@) == seq![rest@.take(i as int)] + split_sub(
                        tail@,
                        sep@,
                    ));
                }
                parts.push(head);
                proof {
                    assert(parts.deep_view() =~= parts_pre.push(rest@.take(i as int)));
                    assert(parts_pre.push(rest@.take(i as int)) + split_sub(tail@, sep@)
                        =~= parts_pre + split_sub(rest@, sep@));
                }
                rest = tail;
            },
        }
    }
}

/// `s` without its trailing slashes.
pub open spec fn trim_end_slashes(s: Seq<char>) -> Seq<char>
    decreases s.len(),
{
    if s.len() > 0 && s.last() == '/' {
        trim_end_slashes(s.drop_last())
    } else {
        s
    }
}

/// Removes every trailing slash.
fn trim_end_slashes_str(s: &str) -> (r: String)
    ensures
        r@ == trim_end_slashes(s@),
{
    let n: usize = s.unicode_len();
    let mut hi: usize = n;
    proof {
        assert(s@.take(n as int) =~= s@);
    }
    while hi > 0 && s.get_char(hi - 1) == '/'
        invariant
            n == s@.len(),
            hi <= n,
            trim_end_slashes(s@) == trim_end_slashes(s@.take(hi as int)),
        decreases hi,
    {
        proof {
            assert(s@.take(hi as int).last() == s@[hi - 1]);
            assert(s@.take(hi as int).drop_last() =~= s@.take(hi - 1));
        }
        hi -= 1;
    }
    proof {
        if hi > 0 {
            assert(s@.take(hi as int).last() == s@[hi - 1]);
        }
        assert(trim_end_slashes(s@.take(hi as int)) == s@.take(hi as int));
    }
    s.substring_char(0, hi).to_owned()
}

/// The name a block's lines settle on, scanned in order starting from
/// `acc`: a line bearing a display-name tag replaces the name with the
/// tag's content when one can be extracted; while the name is still
/// empty, a line bearing a reference tag supplies the last component of
/// the reference with trailing slashes removed.
pub open spec fn block_name_from(lines: Seq<Seq<char>>, acc: Seq<char>) -> Seq<char>
    decreases lines.len(),
{
    if lines.len() == 0 {
        acc
    } else {
        let line = lines.first();
        let acc2 = if has_sub(line, "<d:displayname>"@) {
            match extract_spec(line, "d:displayname"@) {
                Some(n) => n,
                None => acc,
            }
        } else if acc.len() == 0 && has_sub(line, "<d:href>"@) {
            match extract_spec(line, "d:href"@) {
                Some(h) => leaf_spec(trim_end_slashes(h)),
                None => acc,
            }
        } else {
            acc
        };
        block_name_from(lines.drop_first(), acc2)
    }
}

/// A response block's lines.
pub open spec fn block_lines(block: Seq<char>) -> Seq<Seq<char>> {
    split_sub(block, "\n"@)
}

/// The entry name a response block yields.
pub open spec fn block_name(block: Seq<char>) -> Seq<char> {
    block_name_from(block_lines(block), Seq::empty())
}

/// Whether a response block marks a collection (a directory).
pub open spec fn block_is_dir(block: Seq<char>) -> bool {
    exists|i: int|
        0 <= i < block_lines(block).len() && has_sub(
            #[trigger] block_lines(block)[i],
            "<d:collection"@,
        )
}

/// Whether a block's name earns it an entry: non-empty, not the current
/// directory, and free of parent references.
pub open spec fn block_accepted(block: Seq<char>) -> bool {
    let name = block_name(block);
    &&& name.len() > 0
    &&& name != "."@
    &&& !has_sub(name, ".."@)
}

/// What one listing entry should hold: its name and directory flag.
pub ghost struct EntrySpec {
    pub name: Seq<char>,
    pub is_dir: bool,
}

/// The entries the accepted blocks yield, in block order.
pub open spec fn entries_of_blocks(blocks: Seq<Seq<char>>) -> Seq<EntrySpec>
    decreases blocks.len(),
{
    if blocks.len() == 0 {
        Seq::empty()
    } else {
        (if block_accepted(blocks.first()) {
            seq![
                EntrySpec {
                    name: block_name(blocks.first()),
                    is_dir: block_is_dir(blocks.first()),
                },
            ]
        } else {
            Seq::empty()
        }) + entries_of_blocks(blocks.drop_first())
    }
}

/// The listing a whole multi-status response describes: what every block
/// after the leading preamble yields.
pub open spec fn propfind_entries(xml: Seq<char>) -> Seq<EntrySpec> {
    entries_of_blocks(split_sub(xml, "<d:response>"@).skip(1))
}

/// Block entries distribute over concatenation.
proof fn lemma_entries_concat(a: Seq<Seq<char>>, b: Seq<Seq<char>>)
    ensures
        entries_of_blocks(a + b) == entries_of_blocks(a) + entries_of_blocks(b),
    decreases a.len(),
{
    if a.len() == 0 {
        assert(a + b =~= b);
        assert(entries_of_blocks(a) + entries_of_blocks(b) =~= entries_of_blocks(b));
    } else {
        assert((a + b).drop_first() =~= a.drop_first() + b);
        lemma_entries_concat(a.drop_first(), b);
        assert((if block_accepted(a.first()) {
            seq![EntrySpec { name: block_name(a.first()), is_dir: block_is_dir(a.first()) }]
        } else {
            Seq::<EntrySpec>::empty()
        }) + (entries_of_blocks(a.drop_first()) + entries_of_blocks(b)) =~= entries_of_blocks(a)
            + entries_of_blocks(b));
    }
}

/// What a single block contributes to the entry list.
proof fn lemma_entries_single(b: Seq<char>)
    ensures
        entries_of_blocks(seq![b]) == if block_accepted(b) {
            seq![EntrySpec { name: block_name(b), is_dir: block_is_dir(b) }]
        } else {
            Seq::<EntrySpec>::empty()
        },
{
    let s = seq![b];
    assert(s.first() == b);
    assert(s.drop_first() =~= Seq::<Seq<char>>::empty());
    assert(entries_of_blocks(Seq::<Seq<char>>::empty()) == Seq::<EntrySpec>::empty());
    assert(entries_of_blocks(s.drop_first()) == Seq::<EntrySpec>::empty());
    if block_accepted(b) {
        assert(entries_of_blocks(s) =~= seq![
            EntrySpec { name: block_name(b), is_dir: block_is_dir(b) },
        ]);
    } else {
        assert(entries_of_blocks(s) =~= Seq::<EntrySpec>::empty());
    }
}

/// Scans one response block for its entry name and collection marker.
fn parse_block(block: &str) -> (r: (String, bool))
    ensures
        r.0@ == block_name(block@),
        r.1 == block_is_dir(block@),
{
    proof {
        reveal_strlit("\n");
    }
    let lines = split_on(block, "\n");
    let ghost lines_v = block_lines(block@);
    let mut name: String = String::new();
    let mut is_dir: bool = false;
    let n: usize = lines.len();
    let mut i: usize = 0;
    proof {
        assert(lines_v.skip(0) =~= lines_v);
    }
    while i < n
        invariant
            n == lines@.len(),
            lines.deep_view() == lines_v,
            i <= n,
            block_name_from(lines_v.skip(i as int), name@) == block_name(block@),
            is_dir == exists|j: int|
                0 <= j < i && has_sub(#[trigger] lines_v[j], "<d:collection"@),
        decreases n - i,
    {
        let line = &lines[i];
        proof {
            assert(line@ == lines_v[i as int]);
            assert(lines_v.skip(i as int).first() == lines_v[i as int]);
            assert(lines_v.skip(i as int).drop_first() =~= lines_v.skip(i as int + 1));
        }
        if contains_sub(line.as_str(), "<d:displayname>") {
            match extract_tag_content(line.as_str(), "d:displayname") {
                Some(n2) => {
                    name = n2;
                },
                None => {},
            }
        } else {
            let name_empty: bool = name.as_str().unicode_len() == 0;
            if name_empty && contains_sub(line.as_str(), "<d:href>") {
                match extract_tag_content(line.as_str(), "d:href") {
                    Some(h) => {
                        let trimmed = trim_end_slashes_str(h.as_str());
                        let (_dir_part, leaf) = split_parent(trimmed.as_str());
                        name = leaf;
                    },
                    None => {},
                }
            }
        }
        if contains_sub(line.as_str(), "<d:collection") {
            is_dir = true;
        }
        i += 1;
    }
    proof {
        assert(lines_v.skip(n as int) =~= Seq::<Seq<char>>::empty());
    }
    (name, is_dir)
}

/// Parses a PROPFIND multi-status response into listing entries: every
/// response block after the preamble yields one entry — its settled name
/// and collection flag, size zero, no timestamp — unless its name is
/// empty, the current directory, or holds a parent reference.
pub fn parse_propfind_response(xml: &str) -> (r: Vec<DavEntry>)
    ensures
        ({
            let want = propfind_entries(xml@);
            &&& r@.len() == want.len()
            &&& forall|k: int|
                0 <= k < want.len() ==> {
                    &&& (#[trigger] r@[k]).name@ == want[k].name
                    &&& r@[k].is_dir == want[k].is_dir
                    &&& r@[k].size == 0
                    &&& r@[k].modified is None
                }
        }),
{
    proof {
        reveal_strlit("<d:response>");
    }
    let blocks = split_on(xml, "<d:response>");
    let ghost blocks_v = split_sub(xml@, "<d:response>"@);
    let n: usize = blocks.len();
    proof {
        assert(n == blocks_v.len());
        assert(blocks_v.len() >= 1);
        assert(blocks_v.subrange(1, 1) =~= Seq::<Seq<char>>::empty());
    }
    let mut r: Vec<DavEntry> = Vec::new();
    let mut i: usize = 1;
    while i < n
        invariant
            n == blocks@.len(),
            blocks.deep_view() == blocks_v,
            n >= 1,
            1 <= i <= n,
            ({
                let want = entries_of_blocks(blocks_v.subrange(1, i as int));
                &&& r@.len() == want.len()
                &&& forall|k: int|
                    0 <= k < want.len() ==> {
                        &&& (#[trigger] r@[k]).name@ == want[k].name
                        &&& r@[k].is_dir == want[k].is_dir
                        &&& r@[k].size == 0
                        &&& r@[k].modified is None
                    }
            }),
        decreases n - i,
    {
        let ghost want_pre = entries_of_blocks(blocks_v.subrange(1, i as int));
        let block = &blocks[i];
        proof {
            assert(block@ == blocks_v[i as int]);
            assert(blocks_v.subrange(1, i as int + 1) =~= blocks_v.subrange(1, i as int)
                + seq![blocks_v[i as int]]);
            lemma_entries_concat(blocks_v.subrange(1, i as int), seq![blocks_v[i as int]]);
            assert(seq![blocks_v[i as int]].drop_first() =~= Seq::<Seq<char>>::empty());
        }
        let (bname, bdir) = parse_block(block.as_str());
        let name_len: usize = bname.as_str().unicode_len();
        let dot: String = ".".to_owned();
        let ghost b = blocks_v[i as int];
        if name_len > 0 && !(bname == dot) && !contains_sub(bname.as_str(), "..") {
            proof {
                assert(block_accepted(b));
                lemma_entries_single(b);
                assert(entries_of_blocks(blocks_v.subrange(1, i as int + 1)) =~= want_pre.push(
                    EntrySpec { name: block_name(b), is_dir: block_is_dir(b) },
                ));
            }
            let ghost bname_v = bname@;
            r.push(DavEntry { name: bname, is_dir: bdir, size: 0, modified: None });
            proof {
                let want2 = entries_of_blocks(blocks_v.subrange(1, i as int + 1));
                assert forall|k: int| 0 <= k < want2.len() implies {
                    &&& (#[trigger] r@[k]).name@ == want2[k].name
                    &&& r@[k].is_dir == want2[k].is_dir
                    &&& r@[k].size == 0
                    &&& r@[k].modified is None
                } by {
                    if k < want_pre.len() {
                        assert(want2[k] == want_pre[k]);
                    } else {
                        assert(r@[k].name@ == bname_v);
                    }
                }
            }
        } else {
            proof {
                assert(!block_accepted(b));
                lemma_entries_single(b);
                assert(entries_of_blocks(blocks_v.subrange(1, i as int + 1)) =~= want_pre);
            }
        }
        i += 1;
    }
    proof {
        assert(blocks_v.subrange(1, n as int) =~= blocks_v.skip(1));
    }
    r
}

} // verus!
