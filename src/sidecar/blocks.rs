//! Text heuristics of ingestion: splitting text into lines and pieces,
//! cleaning headings, and telling tables and figures from paragraphs.
use vstd::prelude::*;

use crate::common::errors::AppError;
use crate::sidecar::types::{NormalizedPayload, SidecarDocument, SidecarEdge, SidecarNode};
use crate::text::{
    decimal, push_decimal, string_of,
    contains_str, has_sub, is_space, is_space_char, lower_seq, occurs_at, trim, trimmed,
};

verus! {

/// What a block of text is taken to be.
#[derive(Debug, Clone, Copy, PartialEq, Eq, Structural)]
pub enum BlockKind {
    Paragraph,
    Table,
    Figure,
}

/// Splitting `s` at every `sep`: the pieces closed so far and the open one.
pub open spec fn split_char_state(s: Seq<char>, sep: char) -> (Seq<Seq<char>>, Seq<char>)
    decreases s.len(),
{
    if s.len() == 0 {
        (Seq::empty(), Seq::empty())
    } else {
        let (done, open) = split_char_state(s.drop_last(), sep);
        if s.last() == sep {
            (done.push(open), Seq::empty())
        } else {
            (done, open.push(s.last()))
        }
    }
}

/// The pieces of `s` between occurrences of `sep`.
pub open spec fn split_char(s: Seq<char>, sep: char) -> Seq<Seq<char>> {
    split_char_state(s, sep).0.push(split_char_state(s, sep).1)
}

pub open spec fn trim_each(s: Seq<Seq<char>>) -> Seq<Seq<char>> {
    s.map_values(|l: Seq<char>| trim(l))
}

pub open spec fn not_blank() -> spec_fn(Seq<char>) -> bool {
    |l: Seq<char>| l.len() > 0
}

/// The lines of `s` that hold more than whitespace, trimmed.
pub open spec fn content_lines(s: Seq<char>) -> Seq<Seq<char>> {
    trim_each(split_char(s, '\n')).filter(not_blank())
}

/// `s` with every leading copy of `p` removed.
pub open spec fn strip_prefixes(s: Seq<char>, p: Seq<char>) -> Seq<char>
    decreases s.len(),
{
    if p.len() > 0 && s.len() >= p.len() && s.take(p.len() as int) == p {
        strip_prefixes(s.skip(p.len() as int), p)
    } else {
        s
    }
}

/// `s` with every trailing copy of `p` removed.
pub open spec fn strip_suffixes(s: Seq<char>, p: Seq<char>) -> Seq<char>
    decreases s.len(),
{
    if p.len() > 0 && s.len() >= p.len() && s.skip(s.len() - p.len()) == p {
        strip_suffixes(s.take(s.len() - p.len()), p)
    } else {
        s
    }
}

pub open spec fn starts_with(s: Seq<char>, p: Seq<char>) -> bool {
    s.len() >= p.len() && s.take(p.len() as int) == p
}

pub open spec fn ends_with(s: Seq<char>, p: Seq<char>) -> bool {
    s.len() >= p.len() && s.skip(s.len() - p.len()) == p
}

/// A heading without its leading `#` marks and surrounding whitespace.
pub open spec fn cleaned_heading(h: Seq<char>) -> Seq<char> {
    trim(strip_prefixes(h, "#"@))
}

/// A slide heading: an HTML comment is unwrapped first.
pub open spec fn cleaned_slide_heading(raw: Seq<char>) -> Seq<char> {
    let t = trim(raw);
    if starts_with(t, "<!--"@) && ends_with(t, "-->"@) {
        cleaned_heading(trim(strip_suffixes(strip_prefixes(t, "<!--"@), "-->"@)))
    } else {
        cleaned_heading(t)
    }
}

/// The first position at or after `k` where `p` occurs in `s`.
pub open spec fn find_from(s: Seq<char>, p: Seq<char>, k: int) -> Option<int>
    decreases s.len() - k,
{
    if k < 0 || k + p.len() > s.len() {
        None
    } else if occurs_at(s, p, k) {
        Some(k)
    } else {
        find_from(s, p, k + 1)
    }
}

/// An image URL by its scheme or file extension.
pub open spec fn image_url(url: Seq<char>) -> bool {
    let u = lower_seq(url);
    starts_with(u, "data:image/"@) || ends_with(u, ".png"@) || ends_with(u, ".jpg"@) || ends_with(
        u,
        ".jpeg"@,
    ) || ends_with(u, ".webp"@) || ends_with(u, ".gif"@) || ends_with(u, ".svg"@)
}

/// A block that embeds an image: an `<img` tag, a data URL, or a markdown
/// image `![..](url)` whose first URL points at an image.
pub open spec fn figure_block(t: Seq<char>) -> bool {
    let l = lower_seq(t);
    if has_sub(l, "<img"@) || has_sub(l, "data:image/"@) {
        true
    } else {
        match find_from(t, "!["@, 0) {
            None => false,
            Some(start) => match find_from(t, "]("@, start) {
                None => false,
                Some(open) => match find_from(t, ")"@, open + 2) {
                    None => false,
                    Some(close) => image_url(t.subrange(open + 2, close)),
                },
            },
        }
    }
}

pub open spec fn separator_char(c: char) -> bool {
    c == '|' || c == ':' || c == '-' || is_space(c)
}

/// A markdown table: a first line with a `|` and a second line made of
/// `|`, `:`, `-` and whitespace with at least one `-`.
pub open spec fn markdown_table(t: Seq<char>) -> bool {
    let lines = content_lines(t);
    lines.len() >= 2 && has_sub(lines[0], "|"@) && has_sub(lines[1], "-"@) && forall|i: int|
        0 <= i < lines[1].len() ==> separator_char(#[trigger] lines[1][i])
}

pub open spec fn has_tab() -> spec_fn(Seq<char>) -> bool {
    |l: Seq<char>| has_sub(l, "\t"@)
}

/// A tab-separated table: two or more lines, at least two and at least
/// four in five of them holding a tab.
pub open spec fn tsv_table(t: Seq<char>) -> bool {
    let lines = content_lines(t);
    let tabbed = lines.filter(has_tab()).len();
    lines.len() >= 2 && tabbed >= 2 && 5 * tabbed >= 4 * lines.len()
}

pub open spec fn block_kind(text: Seq<char>) -> BlockKind {
    let v = trim(text);
    if v.len() == 0 {
        BlockKind::Paragraph
    } else if figure_block(v) {
        BlockKind::Figure
    } else if markdown_table(v) || tsv_table(v) {
        BlockKind::Table
    } else {
        BlockKind::Paragraph
    }
}

/// The pieces of `s` between occurrences of `sep`.
pub fn split_on_char(s: &Vec<char>, sep: char) -> (r: Vec<Vec<char>>)
    ensures
        r.deep_view() == split_char(s@, sep),
{
    let mut done: Vec<Vec<char>> = Vec::new();
    let mut open: Vec<char> = Vec::new();
    let mut i: usize = 0;
    while i < s.len()
        invariant
            i <= s@.len(),
            done.deep_view() == split_char_state(s@.subrange(0, i as int), sep).0,
            open@ == split_char_state(s@.subrange(0, i as int), sep).1,
        decreases s@.len() - i,
    {
        assert(s@.subrange(0, i + 1).drop_last() =~= s@.subrange(0, i as int));
        if s[i] == sep {
            let ghost before = done.deep_view();
            let ghost ov = open@;
            done.push(open);
            assert(done@[done@.len() - 1].deep_view() =~= ov);
            assert(done.deep_view() =~= before.push(ov));
            open = Vec::new();
            assert(open@ =~= Seq::<char>::empty());
        } else {
            open.push(s[i]);
        }
        i += 1;
    }
    assert(s@.subrange(0, s@.len() as int) =~= s@);
    let ghost before = done.deep_view();
    let ghost ov = open@;
    done.push(open);
    assert(done@[done@.len() - 1].deep_view() =~= ov);
    assert(done.deep_view() =~= before.push(ov));
    done
}

fn trim_chars(v: &Vec<char>) -> (r: Vec<char>)
    ensures
        r@ == trim(v@),
{
    let s = crate::text::string_of(v);
    let t = trimmed(s.as_str());
    crate::text::chars_of(t.as_str())
}

/// The trimmed lines of `s` that hold more than whitespace.
pub fn content_lines_of(s: &Vec<char>) -> (r: Vec<Vec<char>>)
    ensures
        r.deep_view() == content_lines(s@),
{
    let pieces = split_on_char(s, '\n');
    let ghost pv = pieces.deep_view();
    let ghost tv = trim_each(pv);
    let mut out: Vec<Vec<char>> = Vec::new();
    let mut i: usize = 0;
    while i < pieces.len()
        invariant
            pv == pieces.deep_view(),
            tv == trim_each(pv),
            i <= pv.len(),
            out.deep_view() == tv.subrange(0, i as int).filter(not_blank()),
        decreases pv.len() - i,
    {
        assert(tv.subrange(0, i + 1) =~= tv.subrange(0, i as int).push(tv[i as int]));
        proof {
            tv.subrange(0, i as int).lemma_filter_push(tv[i as int], not_blank());
        }
        assert(pieces[i as int]@ == pv[i as int]);
        let t = trim_chars(&pieces[i]);
        if t.len() > 0 {
            let ghost before = out.deep_view();
            let ghost ov = t@;
            out.push(t);
            assert(out@[out@.len() - 1].deep_view() =~= ov);
            assert(out.deep_view() =~= before.push(ov));
        }
        i += 1;
    }
    assert(tv.subrange(0, tv.len() as int) =~= tv);
    out
}

fn starts_with_exec(s: &Vec<char>, p: &str) -> (r: bool)
    ensures
        r == starts_with(s@, p@),
{
    let pc = crate::text::chars_of(p);
    if pc.len() > s.len() {
        return false;
    }
    let mut i: usize = 0;
    while i < pc.len()
        invariant
            pc@ == p@,
            pc@.len() <= s@.len(),
            i <= pc@.len(),
            forall|k: int| 0 <= k < i ==> s@[k] == pc@[k],
        decreases pc@.len() - i,
    {
        if s[i] != pc[i] {
            assert(s@.take(pc@.len() as int)[i as int] != pc@[i as int]);
            return false;
        }
        i += 1;
    }
    assert(s@.take(pc@.len() as int) =~= pc@);
    true
}

fn ends_with_exec(s: &Vec<char>, p: &str) -> (r: bool)
    ensures
        r == ends_with(s@, p@),
{
    let pc = crate::text::chars_of(p);
    if pc.len() > s.len() {
        return false;
    }
    let sl = s.len();
    let off = sl - pc.len();
    let mut i: usize = 0;
    while i < pc.len()
        invariant
            pc@ == p@,
            sl == s@.len(),
            off + pc@.len() == sl,
            off == s@.len() - pc@.len(),
            i <= pc@.len(),
            forall|k: int| 0 <= k < i ==> s@[off + k] == pc@[k],
        decreases pc@.len() - i,
    {
        if s[off + i] != pc[i] {
            assert(s@.skip(off as int)[i as int] != pc@[i as int]);
            return false;
        }
        i += 1;
    }
    assert(s@.skip(off as int) =~= pc@);
    true
}

fn strip_prefixes_exec(s: &Vec<char>, p: &str) -> (r: Vec<char>)
    ensures
        r@ == strip_prefixes(s@, p@),
{
    let pc = crate::text::chars_of(p);
    let mut cur: Vec<char> = s.clone();
    assert(cur@ == s@);
    if pc.len() == 0 {
        return cur;
    }
    while starts_with_exec(&cur, p)
        invariant
            pc@ == p@,
            pc@.len() > 0,
            strip_prefixes(s@, p@) == strip_prefixes(cur@, p@),
        decreases cur@.len(),
    {
        let mut next: Vec<char> = Vec::new();
        let mut i: usize = pc.len();
        while i < cur.len()
            invariant
                pc@.len() <= i <= cur@.len(),
                next@ == cur@.subrange(pc@.len() as int, i as int),
            decreases cur@.len() - i,
        {
            next.push(cur[i]);
            i += 1;
            assert(next@ =~= cur@.subrange(pc@.len() as int, i as int));
        }
        assert(next@ =~= cur@.skip(pc@.len() as int));
        cur = next;
    }
    cur
}

fn strip_suffixes_exec(s: &Vec<char>, p: &str) -> (r: Vec<char>)
    ensures
        r@ == strip_suffixes(s@, p@),
{
    let pc = crate::text::chars_of(p);
    let mut cur: Vec<char> = s.clone();
    assert(cur@ == s@);
    if pc.len() == 0 {
        return cur;
    }
    while ends_with_exec(&cur, p)
        invariant
            pc@ == p@,
            pc@.len() > 0,
            strip_suffixes(s@, p@) == strip_suffixes(cur@, p@),
        decreases cur@.len(),
    {
        let keep = cur.len() - pc.len();
        cur.truncate(keep);
        assert(cur@ =~= cur@.take(keep as int));
    }
    cur
}

/// A heading without its leading `#` marks, trimmed.
pub fn clean_heading(heading: &str) -> (r: String)
    ensures
        r@ == cleaned_heading(heading@),
{
    let c = crate::text::chars_of(heading);
    let stripped = strip_prefixes_exec(&c, "#");
    let s = crate::text::string_of(&stripped);
    trimmed(s.as_str())
}

/// A slide heading, see `cleaned_slide_heading`.
pub fn clean_pptx_heading(raw: &str) -> (r: String)
    ensures
        r@ == cleaned_slide_heading(raw@),
{
    let t = trimmed(raw);
    let tc = crate::text::chars_of(t.as_str());
    if starts_with_exec(&tc, "<!--") && ends_with_exec(&tc, "-->") {
        let a = strip_prefixes_exec(&tc, "<!--");
        let b = strip_suffixes_exec(&a, "-->");
        let inner = trimmed(crate::text::string_of(&b).as_str());
        return clean_heading(inner.as_str());
    }
    clean_heading(t.as_str())
}

proof fn lemma_find_from_found(s: Seq<char>, p: Seq<char>, k: int, i: int)
    requires
        find_from(s, p, k) == Some(i),
    ensures
        k <= i,
        occurs_at(s, p, i),
    decreases s.len() - k,
{
    if k >= 0 && k + p.len() <= s.len() && !occurs_at(s, p, k) {
        lemma_find_from_found(s, p, k + 1, i);
    }
}

fn find_exec(s: &Vec<char>, p: &Vec<char>, k: usize) -> (r: Option<usize>)
    ensures
        match r {
            Some(i) => find_from(s@, p@, k as int) == Some(i as int),
            None => find_from(s@, p@, k as int) is None,
        },
{
    let sl = s.len();
    let mut j: usize = k;
    while j <= sl && p.len() <= sl - j
        invariant
            sl == s@.len(),
            k <= j,
            find_from(s@, p@, k as int) == find_from(s@, p@, j as int),
        decreases sl + 1 - j,
    {
        let mut m: usize = 0;
        let mut all = true;
        while m < p.len()
            invariant
                sl == s@.len(),
                j + p@.len() <= sl,
                m <= p@.len(),
                all == forall|t: int| 0 <= t < m ==> s@[j + t] == p@[t],
            decreases p@.len() - m,
        {
            if s[j + m] != p[m] {
                all = false;
            }
            m += 1;
        }
        if all {
            return Some(j);
        }
        j += 1;
    }
    None
}

fn lower_vec(v: &Vec<char>) -> (r: Vec<char>)
    ensures
        r@ == lower_seq(v@),
{
    let mut out: Vec<char> = Vec::new();
    let mut i: usize = 0;
    while i < v.len()
        invariant
            i <= v@.len(),
            out@ == lower_seq(v@.subrange(0, i as int)),
        decreases v@.len() - i,
    {
        out.push(crate::text::ascii_lower_char(v[i]));
        i += 1;
        assert(out@ =~= lower_seq(v@.subrange(0, i as int)));
    }
    assert(v@.subrange(0, v@.len() as int) =~= v@);
    out
}

fn slice_of(v: &Vec<char>, from: usize, to: usize) -> (r: Vec<char>)
    requires
        from <= to <= v@.len(),
    ensures
        r@ == v@.subrange(from as int, to as int),
{
    let mut out: Vec<char> = Vec::new();
    let mut i: usize = from;
    while i < to
        invariant
            from <= i <= to <= v@.len(),
            out@ == v@.subrange(from as int, i as int),
        decreases to - i,
    {
        out.push(v[i]);
        i += 1;
        assert(out@ =~= v@.subrange(from as int, i as int));
    }
    out
}

fn is_image_url(url: &Vec<char>) -> (r: bool)
    ensures
        r == image_url(url@),
{
    let u = lower_vec(url);
    starts_with_exec(&u, "data:image/") || ends_with_exec(&u, ".png") || ends_with_exec(&u, ".jpg")
        || ends_with_exec(&u, ".jpeg") || ends_with_exec(&u, ".webp") || ends_with_exec(&u, ".gif")
        || ends_with_exec(&u, ".svg")
}

/// Whether a block embeds an image, see `figure_block`.
pub fn looks_like_figure_block(text: &str) -> (r: bool)
    ensures
        r == figure_block(text@),
{
    let t = crate::text::chars_of(text);
    let lower = lower_vec(&t);
    if contains_str(&lower, "<img") || contains_str(&lower, "data:image/") {
        return true;
    }
    let bang = crate::text::chars_of("![");
    let paren = crate::text::chars_of("](");
    let close_mark = crate::text::chars_of(")");
    match find_exec(&t, &bang, 0) {
        None => false,
        Some(start) => match find_exec(&t, &paren, start) {
            None => false,
            Some(open) => {
                proof {
                    lemma_find_from_found(t@, "]("@, start as int, open as int);
                    reveal_strlit("](");
                }
                match find_exec(&t, &close_mark, open + 2) {
                    None => false,
                    Some(close) => {
                        proof {
                            lemma_find_from_found(t@, ")"@, open + 2, close as int);
                        }
                        let url = slice_of(&t, open + 2, close);
                        is_image_url(&url)
                    },
                }
            },
        },
    }
}

/// Whether a block is a markdown table, see `markdown_table`.
pub fn looks_like_markdown_table(text: &str) -> (r: bool)
    ensures
        r == markdown_table(text@),
{
    let t = crate::text::chars_of(text);
    let lines = content_lines_of(&t);
    let ghost lv = lines.deep_view();
    if lines.len() < 2 {
        return false;
    }
    assert(lines[0]@ == lv[0] && lines[1]@ == lv[1]);
    if !contains_str(&lines[0], "|") || !contains_str(&lines[1], "-") {
        return false;
    }
    let second = &lines[1];
    let mut i: usize = 0;
    while i < second.len()
        invariant
            lv == lines.deep_view(),
            lv == content_lines(text@),
            lv.len() >= 2,
            second@ == lv[1],
            i <= second@.len(),
            forall|k: int| 0 <= k < i ==> separator_char(#[trigger] second@[k]),
        decreases second@.len() - i,
    {
        let c = second[i];
        if !(c == '|' || c == ':' || c == '-' || is_space_char(c)) {
            assert(!separator_char(lv[1][i as int]));
            assert(lv == content_lines(text@));
            assert(!(forall|k: int| 0 <= k < lv[1].len() ==> separator_char(#[trigger] lv[1][k])));
            return false;
        }
        i += 1;
    }
    true
}

/// Whether a block is a tab-separated table, see `tsv_table`.
pub fn looks_like_tsv_table(text: &str) -> (r: bool)
    ensures
        r == tsv_table(text@),
{
    let t = crate::text::chars_of(text);
    let lines = content_lines_of(&t);
    let ghost lv = lines.deep_view();
    if lines.len() < 2 {
        return false;
    }
    let mut tabbed: usize = 0;
    let mut i: usize = 0;
    while i < lines.len()
        invariant
            lv == lines.deep_view(),
            i <= lv.len(),
            tabbed == lv.subrange(0, i as int).filter(has_tab()).len(),
            tabbed <= i,
        decreases lv.len() - i,
    {
        assert(lv.subrange(0, i + 1) =~= lv.subrange(0, i as int).push(lv[i as int]));
        proof {
            lv.subrange(0, i as int).lemma_filter_push(lv[i as int], has_tab());
        }
        assert(lines[i as int]@ == lv[i as int]);
        if contains_str(&lines[i], "\t") {
            tabbed += 1;
        }
        i += 1;
    }
    assert(lv.subrange(0, lv.len() as int) =~= lv);
    tabbed >= 2 && 5 * (tabbed as u128) >= 4 * (lines.len() as u128)
}

/// What a block of text is, see `block_kind`.
pub fn classify_block(text: &str) -> (r: BlockKind)
    ensures
        r == block_kind(text@),
{
    let value = trimmed(text);
    if value.as_str().unicode_len() == 0 {
        return BlockKind::Paragraph;
    }
    if looks_like_figure_block(value.as_str()) {
        return BlockKind::Figure;
    }
    if looks_like_markdown_table(value.as_str()) || looks_like_tsv_table(value.as_str()) {
        return BlockKind::Table;
    }
    BlockKind::Paragraph
}

/// What `char::is_uppercase` says of a character: Unicode's Uppercase
/// property.
pub uninterp spec fn uppercase_char(c: char) -> bool;

/// What `char::is_alphabetic` says of a character: Unicode's Alphabetic
/// property.
pub uninterp spec fn alphabetic_char(c: char) -> bool;

/// Relies on `char::is_uppercase`: whether the character has Unicode's
/// Uppercase property.
#[verifier::external_body]
fn is_upper(c: char) -> (r: bool)
    ensures
        r == uppercase_char(c),
{
    c.is_uppercase()
}

/// Relies on `char::is_alphabetic`: whether the character has Unicode's
/// Alphabetic property.
#[verifier::external_body]
fn is_alpha(c: char) -> (r: bool)
    ensures
        r == alphabetic_char(c),
{
    c.is_alphabetic()
}

/// Bytes that UTF-8 takes for a character.
pub open spec fn utf8_width(c: char) -> nat {
    if (c as u32) < 0x80 {
        1
    } else if (c as u32) < 0x800 {
        2
    } else if (c as u32) < 0x10000 {
        3
    } else {
        4
    }
}

/// Bytes that UTF-8 takes for a text.
pub open spec fn byte_len(s: Seq<char>) -> nat
    decreases s.len(),
{
    if s.len() == 0 {
        0
    } else {
        byte_len(s.drop_last()) + utf8_width(s.last())
    }
}

/// Number of maximal runs of non-whitespace characters.
pub open spec fn word_count(s: Seq<char>) -> nat
    decreases s.len(),
{
    if s.len() == 0 {
        0
    } else {
        word_count(s.drop_last()) + if !is_space(s.last()) && (s.len() == 1 || is_space(
            s[s.len() - 2],
        )) {
            1nat
        } else {
            0nat
        }
    }
}

pub open spec fn alpha_pred() -> spec_fn(char) -> bool {
    |c: char| alphabetic_char(c)
}

pub open spec fn upper_pred() -> spec_fn(char) -> bool {
    |c: char| uppercase_char(c)
}

/// Most letters are capitals: more than 65 in 100.
pub open spec fn mostly_upper(line: Seq<char>) -> bool {
    let alpha = line.filter(alpha_pred());
    alpha.len() > 0 && 20 * alpha.filter(upper_pred()).len() > 13 * alpha.len()
}

/// The first line of a paragraph, trimmed.
pub open spec fn first_line(para: Seq<char>) -> Seq<char> {
    trim(split_char(para, '\n')[0])
}

/// A paragraph reads as a heading: a short first line that is a markdown
/// heading, or that ends without sentence punctuation, stands alone, has
/// one to twelve words and starts with a capital or is mostly capitals.
pub open spec fn heading_like(para: Seq<char>) -> bool {
    let line = first_line(para);
    if line.len() == 0 || byte_len(line) > 120 {
        false
    } else if line[0] == '#' {
        true
    } else if line.last() == '.' || line.last() == '?' || line.last() == '!' {
        false
    } else if has_sub(para, "\n\n"@) {
        false
    } else {
        let w = word_count(line);
        w >= 1 && w <= 12 && (uppercase_char(line[0]) || mostly_upper(line))
    }
}

fn utf8_width_exec(c: char) -> (r: usize)
    ensures
        r == utf8_width(c),
{
    let v = c as u32;
    if v < 0x80 {
        1
    } else if v < 0x800 {
        2
    } else if v < 0x10000 {
        3
    } else {
        4
    }
}

proof fn lemma_byte_len_bound(s: Seq<char>)
    ensures
        byte_len(s) <= 4 * s.len(),
    decreases s.len(),
{
    if s.len() > 0 {
        lemma_byte_len_bound(s.drop_last());
    }
}

/// The UTF-8 length of `v`.
pub fn byte_len_of(v: &Vec<char>) -> (r: u128)
    ensures
        r == byte_len(v@),
        r <= 4 * v@.len(),
{
    let mut n: u128 = 0;
    let mut i: usize = 0;
    while i < v.len()
        invariant
            i <= v@.len(),
            n == byte_len(v@.subrange(0, i as int)),
        decreases v@.len() - i,
    {
        assert(v@.subrange(0, i + 1).drop_last() =~= v@.subrange(0, i as int));
        proof {
            lemma_byte_len_bound(v@.subrange(0, i as int));
        }
        n = n + utf8_width_exec(v[i]) as u128;
        i += 1;
    }
    assert(v@.subrange(0, v@.len() as int) =~= v@);
    proof {
        lemma_byte_len_bound(v@);
    }
    n
}

fn word_count_of(v: &Vec<char>) -> (r: usize)
    ensures
        r == word_count(v@),
{
    let mut n: usize = 0;
    let mut i: usize = 0;
    while i < v.len()
        invariant
            i <= v@.len(),
            n == word_count(v@.subrange(0, i as int)),
            n <= i,
        decreases v@.len() - i,
    {
        let ghost sub = v@.subrange(0, i + 1);
        assert(sub.drop_last() =~= v@.subrange(0, i as int));
        if i > 0 {
            assert(sub[sub.len() - 2] == v@[i - 1]);
        }
        if !is_space_char(v[i]) && (i == 0 || is_space_char(v[i - 1])) {
            n += 1;
        }
        i += 1;
    }
    assert(v@.subrange(0, v@.len() as int) =~= v@);
    n
}

fn mostly_upper_exec(line: &Vec<char>) -> (r: bool)
    ensures
        r == mostly_upper(line@),
{
    let mut alpha: Vec<char> = Vec::new();
    let mut i: usize = 0;
    while i < line.len()
        invariant
            i <= line@.len(),
            alpha@ == line@.subrange(0, i as int).filter(alpha_pred()),
            alpha@.len() <= i,
        decreases line@.len() - i,
    {
        assert(line@.subrange(0, i + 1) =~= line@.subrange(0, i as int).push(line@[i as int]));
        proof {
            line@.subrange(0, i as int).lemma_filter_push(line@[i as int], alpha_pred());
        }
        if is_alpha(line[i]) {
            alpha.push(line[i]);
        }
        i += 1;
    }
    assert(line@.subrange(0, line@.len() as int) =~= line@);
    if alpha.len() == 0 {
        return false;
    }
    let mut upper: usize = 0;
    let mut k: usize = 0;
    while k < alpha.len()
        invariant
            k <= alpha@.len(),
            upper == alpha@.subrange(0, k as int).filter(upper_pred()).len(),
            upper <= k,
        decreases alpha@.len() - k,
    {
        assert(alpha@.subrange(0, k + 1) =~= alpha@.subrange(0, k as int).push(alpha@[k as int]));
        proof {
            alpha@.subrange(0, k as int).lemma_filter_push(alpha@[k as int], upper_pred());
        }
        if is_upper(alpha[k]) {
            upper += 1;
        }
        k += 1;
    }
    assert(alpha@.subrange(0, alpha@.len() as int) =~= alpha@);
    20 * (upper as u128) > 13 * (alpha.len() as u128)
}

/// Whether a paragraph reads as a section heading, see `heading_like`.
pub fn looks_like_heading(para: &str) -> (r: bool)
    ensures
        r == heading_like(para@),
{
    let p = crate::text::chars_of(para);
    let pieces = split_on_char(&p, '\n');
    assert(pieces.deep_view().len() == pieces@.len());
    assert(pieces@.len() > 0);
    assert(pieces[0]@ == split_char(para@, '\n')[0]);
    let line = trim_chars(&pieces[0]);
    if line.len() == 0 || byte_len_of(&line) > 120 {
        return false;
    }
    if line[0] == '#' {
        return true;
    }
    let last = line[line.len() - 1];
    if last == '.' || last == '?' || last == '!' {
        return false;
    }
    if contains_str(&p, "\n\n") {
        return false;
    }
    let words = word_count_of(&line);
    if words == 0 || words > 12 {
        return false;
    }
    is_upper(line[0]) || mostly_upper_exec(&line)
}

/// A blank line between paragraphs.
pub open spec fn para_break() -> Seq<char> {
    seq!['\n', '\n']
}

/// The pieces of `s` between blank-line breaks, scanning left to right.
pub open spec fn split_paras(s: Seq<char>) -> Seq<Seq<char>>
    decreases s.len(),
{
    match find_from(s, para_break(), 0) {
        Some(k) => if 0 <= k && k + 2 <= s.len() {
            seq![s.take(k)] + split_paras(s.skip(k + 2))
        } else {
            seq![s]
        },
        None => seq![s],
    }
}

/// Most bytes of one chunk, unless a single paragraph is longer.
pub const CHUNK_SIZE: usize = 600;

/// Gathering paragraphs into chunks: the chunks closed so far and the one
/// being filled.
pub open spec fn chunk_state(paras: Seq<Seq<char>>) -> (Seq<Seq<char>>, Seq<char>)
    decreases paras.len(),
{
    if paras.len() == 0 {
        (Seq::empty(), Seq::empty())
    } else {
        let (chunks, cur) = chunk_state(paras.drop_last());
        let p = trim(paras.last());
        if p.len() == 0 {
            (chunks, cur)
        } else {
            let full = byte_len(cur) + byte_len(p) + 2 > CHUNK_SIZE && cur.len() > 0;
            let chunks2 = if full {
                chunks.push(trim(cur))
            } else {
                chunks
            };
            let cur2 = if full {
                Seq::<char>::empty()
            } else {
                cur
            };
            (chunks2, if cur2.len() > 0 {
                cur2 + para_break() + p
            } else {
                p
            })
        }
    }
}

/// The paragraphs of `text` gathered into chunks of at most `CHUNK_SIZE`
/// bytes, joined by blank lines.
pub open spec fn chunks_of(text: Seq<char>) -> Seq<Seq<char>> {
    let (chunks, cur) = chunk_state(split_paras(text));
    let closed = if trim(cur).len() > 0 {
        chunks.push(trim(cur))
    } else {
        chunks
    };
    if closed.len() == 0 && trim(text).len() > 0 {
        seq![trim(text)]
    } else {
        closed
    }
}

proof fn lemma_find_skips(t: Seq<char>, p: Seq<char>, a: int, b: int)
    requires
        0 <= a <= b,
        forall|j: int| a <= j < b ==> !occurs_at(t, p, j),
    ensures
        find_from(t, p, a) == find_from(t, p, b),
    decreases b - a,
{
    if a < b {
        lemma_find_skips(t, p, a + 1, b);
    }
}

/// The pieces of `s` between blank-line breaks.
pub fn split_paragraphs(s: &Vec<char>) -> (r: Vec<Vec<char>>)
    ensures
        r.deep_view() == split_paras(s@),
{
    let n = s.len();
    let mut done: Vec<Vec<char>> = Vec::new();
    let mut cur: Vec<char> = Vec::new();
    let mut start: usize = 0;
    let mut i: usize = 0;
    assert(s@.skip(0) =~= s@);
    assert(done.deep_view() + split_paras(s@.skip(0)) =~= split_paras(s@));
    while i < n
        invariant
            n == s@.len(),
            start <= i <= n,
            split_paras(s@) == done.deep_view() + split_paras(s@.skip(start as int)),
            cur@ == s@.subrange(start as int, i as int),
            forall|j: int| 0 <= j < i - start ==> !occurs_at(s@.skip(start as int), para_break(), j),
        decreases n - i,
    {
        let ghost rest = s@.skip(start as int);
        if s[i] == '\n' && i + 1 < n && s[i + 1] == '\n' {
            proof {
                let k = (i - start) as int;
                lemma_find_skips(rest, para_break(), 0, k);
                assert(occurs_at(rest, para_break(), k)) by {
                    assert(rest[k] == s@[i as int]);
                    assert(rest[k + 1] == s@[i + 1]);
                }
                assert(rest.take(k) =~= cur@);
                assert(rest.skip(k + 2) =~= s@.skip(i + 2));
                assert(split_paras(rest) == seq![cur@] + split_paras(s@.skip(i + 2)));
            }
            let ghost before = done.deep_view();
            let ghost cv = cur@;
            done.push(cur);
            assert(done@[done@.len() - 1].deep_view() =~= cv);
            assert(done.deep_view() =~= before.push(cv));
            assert(before + (seq![cv] + split_paras(s@.skip(i + 2))) =~= before.push(cv)
                + split_paras(s@.skip(i + 2)));
            cur = Vec::new();
            i += 2;
            start = i;
            assert(cur@ =~= s@.subrange(start as int, i as int));
        } else {
            proof {
                let k = (i - start) as int;
                assert(!occurs_at(rest, para_break(), k)) by {
                    if occurs_at(rest, para_break(), k) {
                        assert(rest[k] == s@[i as int]);
                        assert(rest[k + 1] == s@[i + 1]);
                    }
                }
            }
            cur.push(s[i]);
            i += 1;
            assert(cur@ =~= s@.subrange(start as int, i as int));
        }
    }
    proof {
        let rest = s@.skip(start as int);
        let k = (i - start) as int;
        lemma_find_skips(rest, para_break(), 0, k);
        assert(find_from(rest, para_break(), k) is None);
        assert(rest =~= cur@);
    }
    let ghost before = done.deep_view();
    let ghost cv = cur@;
    done.push(cur);
    assert(done@[done@.len() - 1].deep_view() =~= cv);
    assert(done.deep_view() =~= before.push(cv));
    assert(before + seq![cv] =~= before.push(cv));
    done
}

fn join_para(cur: &Vec<char>, p: &Vec<char>) -> (r: Vec<char>)
    ensures
        r@ == cur@ + para_break() + p@,
{
    let mut out = cur.clone();
    assert(out@ == cur@);
    out.push('\n');
    out.push('\n');
    let mut i: usize = 0;
    let ghost base = out@;
    while i < p.len()
        invariant
            base == cur@ + para_break(),
            i <= p@.len(),
            out@ == base + p@.subrange(0, i as int),
        decreases p@.len() - i,
    {
        out.push(p[i]);
        i += 1;
        assert(out@ =~= base + p@.subrange(0, i as int));
    }
    assert(out@ =~= cur@ + para_break() + p@);
    out
}

/// The chunks of a text, see `chunks_of`.
pub fn text_to_chunks(text: &Vec<char>) -> (r: Vec<Vec<char>>)
    ensures
        r.deep_view() == chunks_of(text@),
{
    let paras = split_paragraphs(text);
    let ghost pv = paras.deep_view();
    let mut chunks: Vec<Vec<char>> = Vec::new();
    let mut cur: Vec<char> = Vec::new();
    let mut i: usize = 0;
    while i < paras.len()
        invariant
            pv == paras.deep_view(),
            i <= pv.len(),
            (chunks.deep_view(), cur@) == chunk_state(pv.subrange(0, i as int)),
        decreases pv.len() - i,
    {
        assert(pv.subrange(0, i + 1).drop_last() =~= pv.subrange(0, i as int));
        assert(paras[i as int]@ == pv[i as int]);
        let p = trim_chars(&paras[i]);
        if p.len() > 0 {
            let cl = cur.len();
            let pl = p.len();
            let a = byte_len_of(&cur);
            let b = byte_len_of(&p);
            assert(a <= 4 * (cl as u128) && b <= 4 * (pl as u128));
            let full = a + b + 2 > CHUNK_SIZE as u128 && cl > 0;
            if full {
                let closed = trim_chars(&cur);
                let ghost before = chunks.deep_view();
                let ghost ov = closed@;
                chunks.push(closed);
                assert(chunks@[chunks@.len() - 1].deep_view() =~= ov);
                assert(chunks.deep_view() =~= before.push(ov));
                cur = Vec::new();
                assert(cur@ =~= Seq::<char>::empty());
            }
            if cur.len() > 0 {
                cur = join_para(&cur, &p);
            } else {
                cur = p;
            }
        }
        i += 1;
    }
    assert(pv.subrange(0, pv.len() as int) =~= pv);
    let rest = trim_chars(&cur);
    if rest.len() > 0 {
        let ghost before = chunks.deep_view();
        let ghost ov = rest@;
        chunks.push(rest);
        assert(chunks@[chunks@.len() - 1].deep_view() =~= ov);
        assert(chunks.deep_view() =~= before.push(ov));
    }
    if chunks.len() == 0 {
        let whole = trim_chars(text);
        if whole.len() > 0 {
            let ghost ov = whole@;
            let mut only: Vec<Vec<char>> = Vec::new();
            only.push(whole);
            assert(only@[0].deep_view() =~= ov);
            assert(only.deep_view() =~= seq![ov]);
            return only;
        }
    }
    chunks
}

/// A heading and the chunks of text under it.
#[derive(Debug, Clone)]
pub struct Section {
    pub heading: String,
    pub paragraphs: Vec<String>,
}

pub open spec fn section_view(s: Section) -> (Seq<char>, Seq<Seq<char>>) {
    (s.heading@, s.paragraphs.deep_view())
}

pub open spec fn sections_view(v: Seq<Section>) -> Seq<(Seq<char>, Seq<Seq<char>>)> {
    v.map_values(|s: Section| section_view(s))
}

/// Reading paragraphs in order: the sections closed so far, the heading
/// in effect and the chunks gathered under it.
pub open spec fn section_state(paras: Seq<Seq<char>>) -> (
    Seq<(Seq<char>, Seq<Seq<char>>)>,
    Seq<char>,
    Seq<Seq<char>>,
)
    decreases paras.len(),
{
    if paras.len() == 0 {
        (Seq::empty(), "Overview"@, Seq::empty())
    } else {
        let (secs, heading, body) = section_state(paras.drop_last());
        let p = trim(paras.last());
        if p.len() == 0 {
            (secs, heading, body)
        } else if heading_like(p) {
            (
                if body.len() > 0 {
                    secs.push((heading, body))
                } else {
                    secs
                },
                cleaned_heading(p),
                Seq::empty(),
            )
        } else {
            (secs, heading, body + chunks_of(p))
        }
    }
}

/// The chunks of a text without headings, as numbered parts.
pub open spec fn numbered_parts(chunks: Seq<Seq<char>>) -> Seq<(Seq<char>, Seq<Seq<char>>)> {
    Seq::new(chunks.len(), |i: int| ("Part "@ + decimal((i + 1) as nat), seq![chunks[i]]))
}

/// The sections of a text: paragraphs that read as headings open a new
/// section; without any, the text's chunks become numbered parts.
pub open spec fn sections_of(text: Seq<char>) -> Seq<(Seq<char>, Seq<Seq<char>>)> {
    let (secs, heading, body) = section_state(split_paras(text));
    let closed = if body.len() > 0 {
        secs.push((heading, body))
    } else {
        secs
    };
    if closed.len() == 0 {
        numbered_parts(chunks_of(text))
    } else {
        closed
    }
}

fn strings_of(v: &Vec<Vec<char>>) -> (r: Vec<String>)
    ensures
        r.deep_view() == v.deep_view(),
{
    let mut out: Vec<String> = Vec::new();
    let mut i: usize = 0;
    while i < v.len()
        invariant
            i <= v@.len(),
            out.deep_view() == v.deep_view().subrange(0, i as int),
        decreases v@.len() - i,
    {
        let ghost before = out.deep_view();
        assert(v.deep_view()[i as int] =~= v@[i as int]@);
        out.push(string_of(&v[i]));
        assert(out.deep_view() =~= before.push(v.deep_view()[i as int]));
        i += 1;
        assert(out.deep_view() =~= v.deep_view().subrange(0, i as int));
    }
    assert(v.deep_view().subrange(0, v@.len() as int) =~= v.deep_view());
    out
}

fn append_all(body: &mut Vec<Vec<char>>, more: Vec<Vec<char>>)
    ensures
        final(body).deep_view() == old(body).deep_view() + more.deep_view(),
{
    let ghost start = body.deep_view();
    let ghost mv = more.deep_view();
    let mut rest = more;
    let mut i: usize = 0;
    let n = rest.len();
    while rest.len() > 0
        invariant
            n == mv.len(),
            i <= n,
            rest.deep_view() == mv.subrange(i as int, n as int),
            body.deep_view() == start + mv.subrange(0, i as int),
        decreases rest@.len(),
    {
        let ghost rv = rest.deep_view();
        let ghost old_rest = rest@;
        assert(rv.len() == rest@.len());
        assert(rv[0] == mv[i as int]);
        let x = rest.remove(0);
        assert(rest@ == old_rest.remove(0));
        assert(rest.deep_view() =~= rv.subrange(1, rv.len() as int));
        assert(x.deep_view() =~= x@);
        assert(x.deep_view() == rv[0]);
        let ghost before = body.deep_view();
        body.push(x);
        assert(body.deep_view() =~= before.push(mv[i as int]));
        i += 1;
        assert(body.deep_view() =~= start + mv.subrange(0, i as int));
        assert(rest.deep_view() =~= mv.subrange(i as int, n as int));
    }
    assert(mv.subrange(0, n as int) =~= mv);
}

fn push_section(secs: &mut Vec<Section>, heading: &Vec<char>, body: &Vec<Vec<char>>)
    ensures
        sections_view(final(secs)@) == sections_view(old(secs)@).push((heading@, body.deep_view())),
{
    let s = Section { heading: string_of(heading), paragraphs: strings_of(body) };
    let ghost before = secs@;
    secs.push(s);
    assert(sections_view(secs@) =~= sections_view(before).push((heading@, body.deep_view())));
}

fn number_parts(chunks: &Vec<Vec<char>>) -> (r: Vec<Section>)
    ensures
        sections_view(r@) == numbered_parts(chunks.deep_view()),
{
    let ghost cv = chunks.deep_view();
    let mut parts: Vec<Section> = Vec::new();
    let mut k: usize = 0;
    while k < chunks.len()
        invariant
            cv == chunks.deep_view(),
            k <= cv.len(),
            sections_view(parts@) == numbered_parts(cv).subrange(0, k as int),
        decreases cv.len() - k,
    {
        let mut name = String::from_str("Part ");
        push_decimal(&mut name, (k + 1) as u64);
        assert(name@ == "Part "@ + decimal((k + 1) as nat));
        let mut one: Vec<String> = Vec::new();
        assert(cv[k as int] =~= chunks@[k as int]@);
        one.push(string_of(&chunks[k]));
        assert(one.deep_view() =~= seq![cv[k as int]]);
        let ghost before = parts@;
        let s = Section { heading: name, paragraphs: one };
        assert(section_view(s) == numbered_parts(cv)[k as int]);
        parts.push(s);
        assert(sections_view(parts@) =~= sections_view(before).push(numbered_parts(cv)[k as int]));
        k += 1;
        assert(sections_view(parts@) =~= numbered_parts(cv).subrange(0, k as int));
    }
    assert(numbered_parts(cv).subrange(0, cv.len() as int) =~= numbered_parts(cv));
    parts
}

fn section_pass(paras: &Vec<Vec<char>>) -> (r: (Vec<Section>, Vec<char>, Vec<Vec<char>>))
    ensures
        (sections_view(r.0@), r.1@, r.2.deep_view()) == section_state(paras.deep_view()),
{
    let ghost pv = paras.deep_view();
    let mut secs: Vec<Section> = Vec::new();
    let mut heading = crate::text::chars_of("Overview");
    let mut body: Vec<Vec<char>> = Vec::new();
    let mut i: usize = 0;
    assert(sections_view(secs@) =~= Seq::<(Seq<char>, Seq<Seq<char>>)>::empty());
    assert(body.deep_view() =~= Seq::<Seq<char>>::empty());
    while i < paras.len()
        invariant
            pv == paras.deep_view(),
            i <= pv.len(),
            (sections_view(secs@), heading@, body.deep_view()) == section_state(
                pv.subrange(0, i as int),
            ),
        decreases pv.len() - i,
    {
        assert(pv.subrange(0, i + 1).drop_last() =~= pv.subrange(0, i as int));
        assert(paras[i as int]@ == pv[i as int]);
        let p = trim_chars(&paras[i]);
        if p.len() > 0 {
            let ps = string_of(&p);
            if looks_like_heading(ps.as_str()) {
                if body.len() > 0 {
                    push_section(&mut secs, &heading, &body);
                }
                let cleaned = clean_heading(ps.as_str());
                heading = crate::text::chars_of(cleaned.as_str());
                body = Vec::new();
                assert(body.deep_view() =~= Seq::<Seq<char>>::empty());
            } else {
                let more = text_to_chunks(&p);
                append_all(&mut body, more);
            }
        }
        i += 1;
    }
    assert(pv.subrange(0, pv.len() as int) =~= pv);
    (secs, heading, body)
}

/// Splits text into sections by heading heuristics, see `sections_of`.
pub fn text_to_sections(text: &str) -> (r: Vec<Section>)
    ensures
        sections_view(r@) == sections_of(text@),
{
    let chars = crate::text::chars_of(text);
    let paras = split_paragraphs(&chars);
    let (secs, heading, body) = section_pass(&paras);
    let mut secs = secs;
    if body.len() > 0 {
        push_section(&mut secs, &heading, &body);
    }
    if secs.len() == 0 {
        let chunks = text_to_chunks(&chars);
        return number_parts(&chunks);
    }
    secs
}

/// Reading (is-heading, text) items in order: the sections closed so far,
/// the heading in effect and the chunks gathered under it.
pub open spec fn group_state(items: Seq<(bool, Seq<char>)>) -> (
    Seq<(Seq<char>, Seq<Seq<char>>)>,
    Seq<char>,
    Seq<Seq<char>>,
)
    decreases items.len(),
{
    if items.len() == 0 {
        (Seq::empty(), "Overview"@, Seq::empty())
    } else {
        let (secs, heading, body) = group_state(items.drop_last());
        let (is_heading, text) = items.last();
        if is_heading {
            (
                if body.len() > 0 {
                    secs.push((heading, body))
                } else {
                    secs
                },
                text,
                Seq::empty(),
            )
        } else {
            (secs, heading, body + chunks_of(text))
        }
    }
}

/// Sections from items already marked as headings or body text; one
/// placeholder section when nothing has body text.
pub open spec fn grouped(items: Seq<(bool, Seq<char>)>) -> Seq<(Seq<char>, Seq<Seq<char>>)> {
    let (secs, heading, body) = group_state(items);
    let closed = if body.len() > 0 {
        secs.push((heading, body))
    } else {
        secs
    };
    if closed.len() == 0 {
        seq![("Document"@, seq!["(No extractable body text)"@])]
    } else {
        closed
    }
}

pub open spec fn items_view(items: Seq<(bool, String)>) -> Seq<(bool, Seq<char>)> {
    items.map_values(|it: (bool, String)| (it.0, it.1@))
}

/// Groups marked items into sections, see `grouped`.
pub fn group_by_headings(items: Vec<(bool, String)>) -> (r: Vec<Section>)
    ensures
        sections_view(r@) == grouped(items_view(items@)),
{
    let ghost iv = items_view(items@);
    let mut secs: Vec<Section> = Vec::new();
    let mut heading = crate::text::chars_of("Overview");
    let mut body: Vec<Vec<char>> = Vec::new();
    let mut i: usize = 0;
    assert(sections_view(secs@) =~= Seq::<(Seq<char>, Seq<Seq<char>>)>::empty());
    assert(body.deep_view() =~= Seq::<Seq<char>>::empty());
    while i < items.len()
        invariant
            iv == items_view(items@),
            i <= iv.len(),
            (sections_view(secs@), heading@, body.deep_view()) == group_state(
                iv.subrange(0, i as int),
            ),
        decreases iv.len() - i,
    {
        assert(iv.subrange(0, i + 1).drop_last() =~= iv.subrange(0, i as int));
        let text = crate::text::chars_of(items[i].1.as_str());
        if items[i].0 {
            if body.len() > 0 {
                push_section(&mut secs, &heading, &body);
            }
            heading = text;
            body = Vec::new();
            assert(body.deep_view() =~= Seq::<Seq<char>>::empty());
        } else {
            let more = text_to_chunks(&text);
            append_all(&mut body, more);
        }
        i += 1;
    }
    assert(iv.subrange(0, iv.len() as int) =~= iv);
    if body.len() > 0 {
        push_section(&mut secs, &heading, &body);
    }
    if secs.len() == 0 {
        let mut one: Vec<String> = Vec::new();
        one.push(String::from_str("(No extractable body text)"));
        assert(one.deep_view() =~= seq!["(No extractable body text)"@]);
        let s = Section { heading: String::from_str("Document"), paragraphs: one };
        assert(section_view(s) == ("Document"@, seq!["(No extractable body text)"@]));
        let mut only: Vec<Section> = Vec::new();
        only.push(s);
        assert(sections_view(only@) =~= seq![("Document"@, seq!["(No extractable body text)"@])]);
        return only;
    }
    secs
}

/// The kinds of source file that ingestion reads.
#[derive(Debug, Clone, Copy, PartialEq, Eq, Structural)]
pub enum SourceFormat {
    Pdf,
    Docx,
    Spreadsheet,
    Presentation,
    Image,
    Text,
}

/// The format that a MIME type (trimmed, ASCII case ignored) or a file
/// extension (ASCII case ignored) selects; plain text for anything else.
pub open spec fn format_for(mime: Seq<char>, ext: Seq<char>) -> SourceFormat {
    let m = lower_seq(trim(mime));
    let e = lower_seq(ext);
    if has_sub(m, "pdf"@) || e == "pdf"@ {
        SourceFormat::Pdf
    } else if has_sub(m, "wordprocessingml"@) || e == "docx"@ {
        SourceFormat::Docx
    } else if has_sub(m, "spreadsheetml"@) || e == "xlsx"@ || e == "xls"@ || e == "xlsm"@ {
        SourceFormat::Spreadsheet
    } else if has_sub(m, "presentationml"@) || e == "pptx"@ {
        SourceFormat::Presentation
    } else if has_sub(m, "image"@) || e == "jpg"@ || e == "jpeg"@ || e == "png"@ || e == "gif"@
        || e == "bmp"@ || e == "webp"@ || e == "tiff"@ || e == "tif"@ {
        SourceFormat::Image
    } else {
        SourceFormat::Text
    }
}

/// Which parser a file goes to, see `format_for`.
pub fn source_format(mime_type: &str, extension: &str) -> (r: SourceFormat)
    ensures
        r == format_for(mime_type@, extension@),
{
    let t = trimmed(mime_type);
    let m = crate::text::lower_chars_of(t.as_str());
    let e = crate::text::lower_chars_of(extension);
    if contains_str(&m, "pdf") || crate::text::equals_str(&e, "pdf") {
        SourceFormat::Pdf
    } else if contains_str(&m, "wordprocessingml") || crate::text::equals_str(&e, "docx") {
        SourceFormat::Docx
    } else if contains_str(&m, "spreadsheetml") || crate::text::equals_str(&e, "xlsx")
        || crate::text::equals_str(&e, "xls") || crate::text::equals_str(&e, "xlsm") {
        SourceFormat::Spreadsheet
    } else if contains_str(&m, "presentationml") || crate::text::equals_str(&e, "pptx") {
        SourceFormat::Presentation
    } else if contains_str(&m, "image") || crate::text::equals_str(&e, "jpg")
        || crate::text::equals_str(&e, "jpeg") || crate::text::equals_str(&e, "png")
        || crate::text::equals_str(&e, "gif") || crate::text::equals_str(&e, "bmp")
        || crate::text::equals_str(&e, "webp") || crate::text::equals_str(&e, "tiff")
        || crate::text::equals_str(&e, "tif") {
        SourceFormat::Image
    } else {
        SourceFormat::Text
    }
}

/// Relies on `uuid::Uuid::new_v4`: a random identifier, rendered as text.
/// Nothing is promised of its value.
#[verifier::external_body]
fn random_id() -> (r: String) {
    uuid::Uuid::new_v4().to_string()
}

/// The node type and the title of a block, by its kind and position.
pub open spec fn block_type_name(k: BlockKind) -> Seq<char> {
    match k {
        BlockKind::Paragraph => "Paragraph"@,
        BlockKind::Table => "Table"@,
        BlockKind::Figure => "Figure"@,
    }
}

pub open spec fn block_title(k: BlockKind, n: nat) -> Seq<char> {
    match k {
        BlockKind::Paragraph => "\u{b6} "@ + decimal(n),
        BlockKind::Table => "Table "@ + decimal(n),
        BlockKind::Figure => "Figure "@ + decimal(n),
    }
}

/// A node of the built tree without its id: the position of its parent in
/// the node list (none for the root), its type, title, text and ordinal
/// path.
pub type NodeShape = (Option<int>, Seq<char>, Seq<char>, Seq<char>, Seq<char>);

pub open spec fn node_shape(n: SidecarNode, parent: Option<int>) -> NodeShape {
    (parent, n.node_type@, n.title@, n.text@, n.ordinal_path@)
}

/// The block nodes of section number `s` (from 1), whose node stands at
/// position `at`.
pub open spec fn block_shapes(paras: Seq<Seq<char>>, s: nat, at: int) -> Seq<NodeShape>
    decreases paras.len(),
{
    if paras.len() == 0 {
        Seq::empty()
    } else {
        let k = block_kind(paras.last());
        block_shapes(paras.drop_last(), s, at).push(
            (
                Some(at),
                block_type_name(k),
                block_title(k, paras.len()),
                paras.last(),
                decimal(s) + "."@ + decimal(paras.len()),
            ),
        )
    }
}

/// The nodes after the root: each section followed by its blocks.
pub open spec fn section_shapes(secs: Seq<(Seq<char>, Seq<Seq<char>>)>) -> Seq<NodeShape>
    decreases secs.len(),
{
    if secs.len() == 0 {
        Seq::empty()
    } else {
        let before = section_shapes(secs.drop_last());
        let at = (before.len() + 1) as int;
        before.push((Some(0), "Section"@, secs.last().0, Seq::empty(), decimal(secs.len()))) + block_shapes(
            secs.last().1,
            secs.len(),
            at,
        )
    }
}

/// The whole tree: the document root, then the sections and their blocks.
pub open spec fn tree_shape(title: Seq<char>, secs: Seq<(Seq<char>, Seq<Seq<char>>)>) -> Seq<
    NodeShape,
> {
    seq![(None, "Document"@, title, Seq::empty(), "root"@)] + section_shapes(secs)
}

/// The nodes match the shapes, each parent given by the id of the node at
/// the shape's parent position.
pub open spec fn nodes_match(nodes: Seq<SidecarNode>, shapes: Seq<NodeShape>) -> bool {
    &&& nodes.len() == shapes.len()
    &&& forall|i: int|
        #![trigger nodes[i]]
        0 <= i < nodes.len() ==> {
            let sh = shapes[i];
            &&& nodes[i].node_type@ == sh.1
            &&& nodes[i].title@ == sh.2
            &&& nodes[i].text@ == sh.3
            &&& nodes[i].ordinal_path@ == sh.4
            &&& match sh.0 {
                None => nodes[i].parent_id is None,
                Some(p) => 0 <= p < i && nodes[i].parent_id is Some && nodes[i].parent_id->0@
                    == nodes[p].id@,
            }
        }
}

/// Every node but the root hangs from its parent by a "contains" edge, in
/// node order.
pub open spec fn edges_match(edges: Seq<SidecarEdge>, nodes: Seq<SidecarNode>) -> bool {
    &&& edges.len() + 1 == nodes.len()
    &&& forall|i: int|
        #![trigger edges[i]]
        0 <= i < edges.len() ==> edges[i].to@ == nodes[i + 1].id@ && nodes[i + 1].parent_id is Some
            && edges[i].from@ == nodes[i + 1].parent_id->0@ && edges[i].relation@ == "contains"@
}

fn titled(prefix: &str, n: usize) -> (r: String)
    ensures
        r@ == prefix@ + decimal(n as nat),
{
    let mut s = String::from_str(prefix);
    push_decimal(&mut s, n as u64);
    s
}

fn decimal_string(n: usize) -> (r: String)
    ensures
        r@ == decimal(n as nat),
{
    let mut s = String::new();
    push_decimal(&mut s, n as u64);
    assert(s@ =~= decimal(n as nat));
    s
}

proof fn lemma_match_push(ns: Seq<SidecarNode>, shs: Seq<NodeShape>, n: SidecarNode, sh: NodeShape)
    requires
        nodes_match(ns, shs),
        n.node_type@ == sh.1,
        n.title@ == sh.2,
        n.text@ == sh.3,
        n.ordinal_path@ == sh.4,
        match sh.0 {
            None => n.parent_id is None,
            Some(p) => 0 <= p < ns.len() && n.parent_id is Some && n.parent_id->0@ == ns[p].id@,
        },
    ensures
        nodes_match(ns.push(n), shs.push(sh)),
{
    let ns2 = ns.push(n);
    let shs2 = shs.push(sh);
    assert forall|i: int| #![trigger ns2[i]] 0 <= i < ns2.len() implies {
        let s = shs2[i];
        &&& ns2[i].node_type@ == s.1
        &&& ns2[i].title@ == s.2
        &&& ns2[i].text@ == s.3
        &&& ns2[i].ordinal_path@ == s.4
        &&& match s.0 {
            None => ns2[i].parent_id is None,
            Some(p) => 0 <= p < i && ns2[i].parent_id is Some && ns2[i].parent_id->0@ == ns2[p].id@,
        }
    } by {
        if i < ns.len() {
            assert(ns2[i] == ns[i]);
            assert(shs2[i] == shs[i]);
            match shs[i].0 {
                Some(p) => {
                    assert(ns2[p] == ns[p]);
                },
                None => {},
            }
        } else {
            match sh.0 {
                Some(p) => {
                    assert(ns2[p] == ns[p]);
                },
                None => {},
            }
        }
    }
}

proof fn lemma_edges_extend(
    es: Seq<SidecarEdge>,
    ns: Seq<SidecarNode>,
    es2: Seq<SidecarEdge>,
    ns2: Seq<SidecarNode>,
)
    requires
        edges_match(es, ns),
        ns.len() >= 1,
        ns2 == ns.push(ns2.last()),
        ns2.last().parent_id is Some,
        es2.len() == es.len() + 1,
        es2.subrange(0, es.len() as int) == es,
        es2.last().to@ == ns2.last().id@,
        es2.last().from@ == ns2.last().parent_id->0@,
        es2.last().relation@ == "contains"@,
    ensures
        edges_match(es2, ns2),
{
    assert forall|i: int| #![trigger es2[i]] 0 <= i < es2.len() implies es2[i].to@ == ns2[i + 1].id@
        && ns2[i + 1].parent_id is Some && es2[i].from@ == ns2[i + 1].parent_id->0@
        && es2[i].relation@ == "contains"@ by {
        if i < es.len() {
            assert(es2[i] == es2.subrange(0, es.len() as int)[i]);
            assert(es2[i] == es[i]);
            assert(ns2[i + 1] == ns[i + 1]);
        }
    }
}

proof fn lemma_block_shapes_step(paras: Seq<Seq<char>>, s: nat, at: int, pj: int)
    requires
        0 <= pj < paras.len(),
    ensures
        block_shapes(paras.subrange(0, pj + 1), s, at) == block_shapes(paras.subrange(0, pj), s, at).push(
            (
                Some(at),
                block_type_name(block_kind(paras[pj])),
                block_title(block_kind(paras[pj]), (pj + 1) as nat),
                paras[pj],
                decimal(s) + "."@ + decimal((pj + 1) as nat),
            ),
        ),
{
    assert(paras.subrange(0, pj + 1).drop_last() =~= paras.subrange(0, pj));
}

proof fn lemma_section_shapes_step(
    title: Seq<char>,
    sv: Seq<(Seq<char>, Seq<Seq<char>>)>,
    si: int,
)
    requires
        0 <= si < sv.len(),
    ensures
        tree_shape(title, sv.subrange(0, si + 1)) == tree_shape(title, sv.subrange(0, si)).push(
            (Some(0), "Section"@, sv[si].0, Seq::<char>::empty(), decimal((si + 1) as nat)),
        ) + block_shapes(sv[si].1, (si + 1) as nat, tree_shape(title, sv.subrange(0, si)).len() as int),
        tree_shape(title, sv.subrange(0, si)).len() == section_shapes(sv.subrange(0, si)).len() + 1,
{
    let pre = sv.subrange(0, si);
    let post = sv.subrange(0, si + 1);
    assert(post.drop_last() =~= pre);
    let root = seq![(None, "Document"@, title, Seq::<char>::empty(), "root"@)];
    let x = section_shapes(pre);
    let sec = (Some(0), "Section"@, sv[si].0, Seq::<char>::empty(), decimal((si + 1) as nat));
    let b = block_shapes(sv[si].1, (si + 1) as nat, (x.len() + 1) as int);
    assert(section_shapes(post) == x.push(sec) + b);
    assert(root + (x.push(sec) + b) =~= (root + x).push(sec) + b);
}

fn prefixed_id(prefix: &str) -> (r: String) {
    let mut s = String::from_str(prefix);
    let id = random_id();
    s.append(id.as_str());
    s
}

fn add_node(
    nodes: &mut Vec<SidecarNode>,
    edges: &mut Vec<SidecarEdge>,
    node: SidecarNode,
    parent: &String,
)
    requires
        old(nodes)@.len() == old(edges)@.len() + 1,
        node.parent_id == Some(*parent),
    ensures
        final(nodes)@ == old(nodes)@.push(node),
        final(edges)@.len() == old(edges)@.len() + 1,
        final(edges)@.subrange(0, old(edges)@.len() as int) == old(edges)@,
        final(edges)@.last().from@ == parent@,
        final(edges)@.last().to@ == node.id@,
        final(edges)@.last().relation@ == "contains"@,
{
    let edge = SidecarEdge {
        from: parent.clone(),
        to: node.id.clone(),
        relation: String::from_str("contains"),
    };
    nodes.push(node);
    let ghost before = edges@;
    edges.push(edge);
    assert(edges@.subrange(0, before.len() as int) =~= before);
}

/// Builds the Document, Section and block nodes of a parsed document, with
/// fresh random ids and a "contains" edge from each parent to each child;
/// INVALID_INPUT when there is no section.
pub fn build_hierarchy(title: String, pages: i64, sections: &Vec<Section>) -> (r: Result<
    NormalizedPayload,
    AppError,
>)
    ensures
        sections@.len() == 0 ==> r is Err && r->Err_0 is InvalidInput,
        sections@.len() > 0 ==> r is Ok && r->Ok_0.document.title@ == title@
            && r->Ok_0.document.pages == (if pages > 1 { pages } else { 1 }) && nodes_match(
            r->Ok_0.nodes@,
            tree_shape(title@, sections_view(sections@)),
        ) && edges_match(r->Ok_0.edges@, r->Ok_0.nodes@) && r->Ok_0.nodes@[0].page_start
            == Some(1i64) && r->Ok_0.nodes@[0].page_end == Some(if pages > 1 { pages } else { 1 }),
{
    if sections.len() == 0 {
        return Err(
            AppError::InvalidInput(
                String::from_str("native parser: document contains no extractable text"),
            ),
        );
    }
    let page_count: i64 = if pages > 1 {
        pages
    } else {
        1
    };
    let ghost sv = sections_view(sections@);
    let root_id = prefixed_id("root-");
    let mut nodes: Vec<SidecarNode> = Vec::new();
    let mut edges: Vec<SidecarEdge> = Vec::new();
    nodes.push(
        SidecarNode {
            id: root_id.clone(),
            parent_id: None,
            node_type: String::from_str("Document"),
            title: title.clone(),
            text: String::new(),
            page_start: Some(1),
            page_end: Some(page_count),
            ordinal_path: String::from_str("root"),
        },
    );
    assert(tree_shape(title@, sv.subrange(0, 0)) =~= seq![
        (None, "Document"@, title@, Seq::<char>::empty(), "root"@),
    ]) by {
        assert(section_shapes(sv.subrange(0, 0)) =~= Seq::<NodeShape>::empty());
    }
    let mut si: usize = 0;
    while si < sections.len()
        invariant
            sv == sections_view(sections@),
            si <= sv.len(),
            nodes@.len() >= 1,
            nodes@[0].id == root_id,
            nodes@[0].page_start == Some(1i64),
            nodes@[0].page_end == Some(page_count),
            nodes_match(nodes@, tree_shape(title@, sv.subrange(0, si as int))),
            edges_match(edges@, nodes@),
        decreases sv.len() - si,
    {
        proof {
            lemma_section_shapes_step(title@, sv, si as int);
        }
        let sec = &sections[si];
        let sec_no = si + 1;
        let sec_id = prefixed_id("s-");
        let ghost at = nodes@.len() as int;
        let ghost paras = sv[si as int].1;
        let ghost before_nodes = nodes@;
        let ghost before_edges = edges@;
        add_node(
            &mut nodes,
            &mut edges,
            SidecarNode {
                id: sec_id.clone(),
                parent_id: Some(root_id.clone()),
                node_type: String::from_str("Section"),
                title: sec.heading.clone(),
                text: String::new(),
                page_start: None,
                page_end: None,
                ordinal_path: decimal_string(si + 1),
            },
            &root_id,
        );
        proof {
            lemma_edges_extend(before_edges, before_nodes, edges@, nodes@);
            lemma_match_push(
                before_nodes,
                tree_shape(title@, sv.subrange(0, si as int)),
                nodes@.last(),
                (Some(0), "Section"@, sv[si as int].0, Seq::<char>::empty(), decimal((si + 1) as nat)),
            );
            assert(block_shapes(paras.subrange(0, 0), (si + 1) as nat, at) =~= Seq::<NodeShape>::empty());
            assert(tree_shape(title@, sv.subrange(0, si as int)).push(
                (Some(0), "Section"@, sv[si as int].0, Seq::<char>::empty(), decimal((si + 1) as nat)),
            ) + block_shapes(paras.subrange(0, 0), (si + 1) as nat, at) =~= tree_shape(title@, sv.subrange(0, si as int)).push(
                (Some(0), "Section"@, sv[si as int].0, Seq::<char>::empty(), decimal((si + 1) as nat)),
            ));
        }
        let mut pj: usize = 0;
        while pj < sec.paragraphs.len()
            invariant
                sv == sections_view(sections@),
                si < sv.len(),
                si < sections@.len(),
                sec_no == si + 1,
                *sec == sections@[si as int],
                paras == sec.paragraphs.deep_view(),
                pj <= paras.len(),
                at >= 1,
                nodes@.len() == at + 1 + pj,
                nodes@[0].id == root_id,
                nodes@[0].page_start == Some(1i64),
                nodes@[0].page_end == Some(page_count),
                nodes@[at].id == sec_id,
                nodes_match(
                    nodes@,
                    tree_shape(title@, sv.subrange(0, si as int)).push(
                        (Some(0), "Section"@, sv[si as int].0, Seq::empty(), decimal((si + 1) as nat)),
                    ) + block_shapes(paras.subrange(0, pj as int), (si + 1) as nat, at),
                ),
                tree_shape(title@, sv.subrange(0, si as int)).len() == at,
                edges_match(edges@, nodes@),
            decreases paras.len() - pj,
        {
            let text = sec.paragraphs[pj].clone();
            let kind = classify_block(text.as_str());
            let (kind_name, block_title_text) = match kind {
                BlockKind::Paragraph => (String::from_str("Paragraph"), titled("\u{b6} ", pj + 1)),
                BlockKind::Table => (String::from_str("Table"), titled("Table ", pj + 1)),
                BlockKind::Figure => (String::from_str("Figure"), titled("Figure ", pj + 1)),
            };
            let mut ordinal = decimal_string(sec_no);
            ordinal.append(".");
            push_decimal(&mut ordinal, (pj + 1) as u64);
            let ghost before_nodes = nodes@;
            let ghost before_edges = edges@;
            add_node(
                &mut nodes,
                &mut edges,
                SidecarNode {
                    id: prefixed_id("p-"),
                    parent_id: Some(sec_id.clone()),
                    node_type: kind_name,
                    title: block_title_text,
                    text,
                    page_start: None,
                    page_end: None,
                    ordinal_path: ordinal,
                },
                &sec_id,
            );
            proof {
                lemma_edges_extend(before_edges, before_nodes, edges@, nodes@);
                lemma_block_shapes_step(paras, (si + 1) as nat, at, pj as int);
                assert(paras[pj as int] == sec.paragraphs@[pj as int]@);
                lemma_match_push(
                    before_nodes,
                    tree_shape(title@, sv.subrange(0, si as int)).push(
                        (Some(0), "Section"@, sv[si as int].0, Seq::<char>::empty(), decimal((si + 1) as nat)),
                    ) + block_shapes(paras.subrange(0, pj as int), (si + 1) as nat, at),
                    nodes@.last(),
                    block_shapes(paras.subrange(0, pj + 1), (si + 1) as nat, at).last(),
                );
                let base = tree_shape(title@, sv.subrange(0, si as int)).push(
                    (Some(0), "Section"@, sv[si as int].0, Seq::<char>::empty(), decimal((si + 1) as nat)),
                );
                assert(base + block_shapes(paras.subrange(0, pj + 1), (si + 1) as nat, at) =~= (base
                    + block_shapes(paras.subrange(0, pj as int), (si + 1) as nat, at)).push(
                    block_shapes(paras.subrange(0, pj + 1), (si + 1) as nat, at).last(),
                ));
            }
            pj += 1;
        }
        assert(paras.subrange(0, paras.len() as int) =~= paras);
        si += 1;
    }
    assert(sv.subrange(0, sv.len() as int) =~= sv);
    Ok(
        NormalizedPayload {
            document: SidecarDocument { title, pages: page_count },
            nodes,
            edges,
        },
    )
}

} // verus!
