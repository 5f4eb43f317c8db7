//! Text helpers of the block editor: moving between character and byte
//! offsets of a block's markdown source, and the `:shortcode` completion
//! that the emoji popup offers.

use vstd::prelude::*;
use vstd::utf8::{encode_utf8, encode_scalar, char_is_scalar};
use crate::strs::str_chars;
use crate::primitives::MenuItem;

verus! {

/* ---------------- char and byte offsets ---------------- */

/// The number of UTF-8 bytes the first `k` characters of `s` take.
pub open spec fn prefix_bytes(s: Seq<char>, k: int) -> int {
    encode_utf8(s.take(k)).len() as int
}

/// The UTF-8 width of `c` in bytes.
pub open spec fn width(c: char) -> int {
    encode_scalar(c as u32).len() as int
}

proof fn lemma_encode_concat(a: Seq<char>, b: Seq<char>)
    ensures
        encode_utf8(a + b) == encode_utf8(a) + encode_utf8(b),
    decreases a.len(),
{
    if a.len() == 0 {
        assert(a + b == b);
        assert(encode_utf8(a) == Seq::<u8>::empty());
        assert(Seq::<u8>::empty() + encode_utf8(b) == encode_utf8(b));
    } else {
        assert((a + b).drop_first() == a.drop_first() + b);
        lemma_encode_concat(a.drop_first(), b);
        assert(encode_scalar(a[0] as u32) + (encode_utf8(a.drop_first()) + encode_utf8(b)) == (
        encode_scalar(a[0] as u32) + encode_utf8(a.drop_first())) + encode_utf8(b));
    }
}

proof fn lemma_prefix_step(s: Seq<char>, k: int)
    requires
        0 <= k < s.len(),
    ensures
        prefix_bytes(s, k + 1) == prefix_bytes(s, k) + width(s[k]),
        width(s[k]) >= 1,
{
    assert(s.take(k + 1) == s.take(k) + seq![s[k]]);
    lemma_encode_concat(s.take(k), seq![s[k]]);
    assert(seq![s[k]].drop_first() == Seq::<char>::empty());
    assert(encode_utf8(seq![s[k]]) == encode_scalar(s[k] as u32) + encode_utf8(Seq::<char>::empty()));
    assert(encode_scalar(s[k] as u32) + Seq::<u8>::empty() == encode_scalar(s[k] as u32));
    char_is_scalar(s[k]);
}

proof fn lemma_prefix_mono(s: Seq<char>, j: int, k: int)
    requires
        0 <= j <= k <= s.len(),
    ensures
        prefix_bytes(s, j) + (k - j) <= prefix_bytes(s, k),
    decreases k - j,
{
    if j < k {
        lemma_prefix_mono(s, j, k - 1);
        lemma_prefix_step(s, k - 1);
    }
}

/// The UTF-8 width of `c` in bytes (as `char::len_utf8`).
pub fn utf8_width(c: char) -> (w: usize)
    ensures
        w == width(c),
{
    proof {
        char_is_scalar(c);
    }
    let v = c as u32;
    if v < 0x80 {
        1
    } else if v < 0x800 {
        2
    } else if v < 0x10000 {
        3
    } else {
        4
    }
}

/// Byte offset of the `char_idx`-th char (clamped to the string end).
pub fn byte_of_char(s: &str, char_idx: usize) -> (b: usize)
    ensures
        b == prefix_bytes(s@, if char_idx < s@.len() { char_idx as int } else { s@.len() as int }),
{
    let chars = str_chars(s);
    let n = chars.len();
    let total = s.as_bytes().len();
    let stop = if char_idx < n { char_idx } else { n };
    let mut k: usize = 0;
    let mut b: usize = 0;
    proof {
        assert(s@.take(0) == Seq::<char>::empty());
        assert(s@.take(n as int) == s@);
        lemma_prefix_mono(s@, stop as int, n as int);
    }
    while k < stop
        invariant
            k <= stop <= n,
            n == s@.len(),
            chars@ == s@,
            b == prefix_bytes(s@, k as int),
            prefix_bytes(s@, stop as int) <= prefix_bytes(s@, n as int),
            prefix_bytes(s@, n as int) == total,
        decreases stop - k,
    {
        proof {
            lemma_prefix_step(s@, k as int);
            lemma_prefix_mono(s@, k + 1, stop as int);
        }
        b = b + utf8_width(chars[k]);
        k += 1;
    }
    b
}

/// The number of characters of `s` whose UTF-8 encoding ends at or before
/// byte `b`, counted from character `k`.
pub open spec fn chars_within(s: Seq<char>, b: int, k: int) -> int
    decreases s.len() - k,
{
    if k < 0 || k >= s.len() {
        k
    } else if prefix_bytes(s, k + 1) <= b {
        chars_within(s, b, k + 1)
    } else {
        k
    }
}

/// Char index of the char containing/starting at `byte` (clamped to a
/// boundary at or before it): the number of characters wholly before that
/// boundary.
pub fn char_of_byte(s: &str, byte: usize) -> (k: usize)
    ensures
        k == chars_within(s@, byte as int, 0),
{
    let chars = str_chars(s);
    let n = chars.len();
    let total = s.as_bytes().len();
    let mut k: usize = 0;
    let mut b: usize = 0;
    proof {
        assert(s@.take(0) == Seq::<char>::empty());
        assert(s@.take(n as int) == s@);
    }
    while k < n
        invariant
            k <= n,
            n == s@.len(),
            chars@ == s@,
            b == prefix_bytes(s@, k as int),
            prefix_bytes(s@, n as int) == total,
            chars_within(s@, byte as int, 0) == chars_within(s@, byte as int, k as int),
        decreases n - k,
    {
        proof {
            lemma_prefix_step(s@, k as int);
            lemma_prefix_mono(s@, k + 1, n as int);
        }
        let next = b + utf8_width(chars[k]);
        if next > byte {
            return k;
        }
        b = next;
        k += 1;
    }
    k
}

proof fn lemma_chars_within(s: Seq<char>, b: int, k: int, i: int)
    requires
        0 <= k <= i <= s.len(),
        prefix_bytes(s, i) <= b,
        i == s.len() || prefix_bytes(s, i + 1) > b,
    ensures
        chars_within(s, b, k) == i,
    decreases i - k,
{
    if k < i {
        lemma_prefix_mono(s, k + 1, i);
        lemma_chars_within(s, b, k + 1, i);
    }
}

/// Offsets round-trip: the char at a char index's byte offset is that
/// index (clamped to the string's length).
pub proof fn lemma_char_byte_round_trip(s: Seq<char>, i: int)
    requires
        0 <= i,
    ensures
        chars_within(s, prefix_bytes(s, if i < s.len() { i } else { s.len() as int }), 0) == if i
            < s.len() {
            i
        } else {
            s.len() as int
        },
{
    let c = if i < s.len() { i } else { s.len() as int };
    if c < s.len() {
        lemma_prefix_step(s, c);
    }
    lemma_chars_within(s, prefix_bytes(s, c), 0, c);
}

/// Whether byte offset `c` of the UTF-8 encoding of `s` starts a character
/// or is its end.
pub open spec fn is_boundary(s: Seq<char>, c: int) -> bool {
    exists|j: int| 0 <= j <= s.len() && prefix_bytes(s, j) == c
}

proof fn lemma_chars_within_found(s: Seq<char>, b: int, k: int)
    requires
        0 <= k <= s.len(),
        prefix_bytes(s, k) <= b,
    ensures
        k <= chars_within(s, b, k) <= s.len(),
        prefix_bytes(s, chars_within(s, b, k)) <= b,
        chars_within(s, b, k) == s.len() || prefix_bytes(s, chars_within(s, b, k) + 1) > b,
    decreases s.len() - k,
{
    if k < s.len() && prefix_bytes(s, k + 1) <= b {
        lemma_chars_within_found(s, b, k + 1);
    }
}

/// Offsets round-trip the other way: the byte offset of the char that
/// contains byte `b` is the last character boundary at or before `b`
/// (clamped to the end of the string).
pub proof fn lemma_byte_char_round_trip(s: Seq<char>, b: int)
    requires
        0 <= b,
    ensures
        ({
            let m = if b < prefix_bytes(s, s.len() as int) { b } else { prefix_bytes(s, s.len() as int) };
            let k = chars_within(s, b, 0);
            &&& 0 <= k <= s.len()
            &&& is_boundary(s, prefix_bytes(s, k))
            &&& prefix_bytes(s, k) <= m
            &&& forall|c: int| is_boundary(s, c) && c <= m ==> c <= prefix_bytes(s, k)
        }),
{
    let n = s.len() as int;
    let m = if b < prefix_bytes(s, n) { b } else { prefix_bytes(s, n) };
    assert(s.take(0) =~= Seq::<char>::empty());
    let k = chars_within(s, b, 0);
    lemma_chars_within_found(s, b, 0);
    lemma_prefix_mono(s, k, n);
    assert(is_boundary(s, prefix_bytes(s, k)));
    assert forall|c: int| is_boundary(s, c) && c <= m implies c <= prefix_bytes(s, k) by {
        let j = choose|j: int| 0 <= j <= s.len() && prefix_bytes(s, j) == c;
        if j > k {
            lemma_prefix_mono(s, k + 1, j);
        } else {
            lemma_prefix_mono(s, j, k);
        }
    }
}

/* ---------------- emoji shortcodes ---------------- */

/// A character a shortcode may hold: `a`..`z`, `0`..`9`, `_`, `+`, `-`.
pub open spec fn is_code_char(c: char) -> bool {
    ('a' <= c <= 'z') || ('0' <= c <= '9') || c == '_' || c == '+' || c == '-'
}

/// Where the run of shortcode characters that ends at `k` starts.
pub open spec fn code_start(s: Seq<char>, k: int) -> int
    decreases k,
{
    if k <= 0 || k > s.len() {
        if k <= 0 { 0 } else { k }
    } else if is_code_char(s[k - 1]) {
        code_start(s, k - 1)
    } else {
        k
    }
}

/// The `:prefix` right before character `caret` (clamped to the end), as
/// the index of its `:` and the prefix: it needs two or more shortcode
/// characters directly after a `:`.
pub open spec fn spec_emoji_prefix(s: Seq<char>, caret: int) -> Option<(int, Seq<char>)> {
    let c = if caret < s.len() { caret } else { s.len() as int };
    let i = code_start(s, c);
    if i == 0 || s[i - 1] != ':' || c - i < 2 {
        None
    } else {
        Some((i - 1, s.subrange(i, c)))
    }
}

fn code_char(c: char) -> (b: bool)
    ensures
        b == is_code_char(c),
{
    ('a' <= c && c <= 'z') || ('0' <= c && c <= '9') || c == '_' || c == '+' || c == '-'
}

proof fn lemma_code_start(s: Seq<char>, k: int)
    requires
        0 <= k <= s.len(),
    ensures
        0 <= code_start(s, k) <= k,
        forall|j: int| code_start(s, k) <= j < k ==> is_code_char(#[trigger] s[j]),
        code_start(s, k) > 0 ==> !is_code_char(s[code_start(s, k) - 1]),
    decreases k,
{
    if k > 0 && is_code_char(s[k - 1]) {
        lemma_code_start(s, k - 1);
    }
}

/// A completion prefix is a `:` followed by two or more shortcode
/// characters that end at the caret, with no shortcode character before
/// them.
pub proof fn lemma_emoji_prefix_shape(s: Seq<char>, caret: int)
    requires
        0 <= caret,
    ensures
        spec_emoji_prefix(s, caret) matches Some((i, p)) ==> {
            let c = if caret < s.len() { caret } else { s.len() as int };
            &&& 0 <= i && i + 1 + p.len() == c
            &&& s[i] == ':'
            &&& p.len() >= 2
            &&& p == s.subrange(i + 1, c)
            &&& forall|j: int| 0 <= j < p.len() ==> is_code_char(#[trigger] p[j])
        },
{
    let c = if caret < s.len() { caret } else { s.len() as int };
    lemma_code_start(s, c);
    if let Some((i, p)) = spec_emoji_prefix(s, caret) {
        assert forall|j: int| 0 <= j < p.len() implies is_code_char(#[trigger] p[j]) by {
            assert(p[j] == s[i + 1 + j]);
        }
    }
}

/// `:prefix` before the caret, as `(start_char_of_colon, prefix)`. Requires
/// two or more `[a-z0-9_+-]` chars directly after a `:`.
pub fn emoji_prefix(draft: &str, caret_char: usize) -> (r: Option<(usize, String)>)
    ensures
        match (r, spec_emoji_prefix(draft@, caret_char as int)) {
            (Some((i, p)), Some((j, q))) => i == j && p@ == q,
            (None, None) => true,
            _ => false,
        },
{
    let chars = str_chars(draft);
    let caret = if caret_char < chars.len() { caret_char } else { chars.len() };
    let mut i = caret;
    while i > 0 && code_char(chars[i - 1])
        invariant
            i <= caret <= chars.len(),
            chars@ == draft@,
            code_start(draft@, caret as int) == code_start(draft@, i as int),
        decreases i,
    {
        i -= 1;
    }
    proof {
        lemma_code_start(draft@, i as int);
    }
    if i == 0 || chars[i - 1] != ':' || caret - i < 2 {
        return None;
    }
    let prefix = crate::strs::chars_range(&chars, i, caret);
    Some((i - 1, crate::strs::string_of(&prefix)))
}

/// The draft after completing the `:prefix` that starts at character
/// `start` and ends at `caret` (both clamped to the end) with `:code:`:
/// `None` when the prefix would end before it starts.
pub open spec fn spec_splice_shortcode(d: Seq<char>, start: int, caret: int, code: Seq<char>) -> Option<(Seq<char>, int)> {
    let s = if start < d.len() { start } else { d.len() as int };
    let c = if caret < d.len() { caret } else { d.len() as int };
    if s > c {
        None
    } else {
        Some((d.take(s) + seq![':'] + code + seq![':'] + d.skip(c), start + code.len() + 2))
    }
}

/// Complete a shortcode in the draft: the partial `:prefix` from character
/// `start_char` to the caret becomes `:code:` (storage keeps shortcodes;
/// rendering resolves them). Returns the new draft and the caret after the
/// closing `:`.
pub fn splice_shortcode(draft: &str, start_char: usize, caret_char: usize, code: &str) -> (r: Option<(String, usize)>)
    requires
        start_char + code@.len() + 2 <= usize::MAX,
    ensures
        match (r, spec_splice_shortcode(draft@, start_char as int, caret_char as int, code@)) {
            (Some((t, k)), Some((u, m))) => t@ == u && k == m,
            (None, None) => true,
            _ => false,
        },
{
    let chars = str_chars(draft);
    let code_chars = str_chars(code);
    let n = chars.len();
    let s = if start_char < n { start_char } else { n };
    let c = if caret_char < n { caret_char } else { n };
    if s > c {
        return None;
    }
    let mut out: Vec<char> = Vec::new();
    let mut k: usize = 0;
    while k < s
        invariant
            k <= s <= n == chars@.len(),
            out@ == chars@.take(k as int),
        decreases s - k,
    {
        out.push(chars[k]);
        k += 1;
        assert(out@ =~= chars@.take(k as int));
    }
    out.push(':');
    let ghost head = out@;
    let mut k: usize = 0;
    while k < code_chars.len()
        invariant
            k <= code_chars@.len(),
            out@ == head + code_chars@.take(k as int),
        decreases code_chars@.len() - k,
    {
        out.push(code_chars[k]);
        k += 1;
        assert(out@ =~= head + code_chars@.take(k as int));
    }
    assert(code_chars@.take(code_chars@.len() as int) =~= code_chars@);
    out.push(':');
    let ghost mid = out@;
    let mut k: usize = c;
    while k < n
        invariant
            c <= k <= n == chars@.len(),
            out@ == mid + chars@.subrange(c as int, k as int),
        decreases n - k,
    {
        out.push(chars[k]);
        k += 1;
        assert(out@ =~= mid + chars@.subrange(c as int, k as int));
    }
    assert(chars@.subrange(c as int, n as int) =~= chars@.skip(c as int));
    assert(out@ =~= chars@.take(s as int) + seq![':'] + code@ + seq![':'] + chars@.skip(c as int));
    Some((crate::strs::string_of(&out), start_char + code_chars.len() + 2))
}

/* ---------------- list ordinals ---------------- */

/// What the ordinal of a numbered list item reads of each sibling block:
/// whether it is a list item, whether numbered, and its indent.
#[derive(Clone, Copy, Debug, PartialEq, Eq, Structural)]
pub struct ListEntry {
    pub item: bool,
    pub numbered: bool,
    pub indent: usize,
}

/// The ordinal of an item at `indent` whose run of earlier siblings ends at
/// `j`: each numbered item at the same indent counts, deeper items are
/// passed over, anything else ends the run.
pub open spec fn ordinal_from(list: Seq<ListEntry>, indent: usize, j: int) -> int
    decreases j,
{
    if j <= 0 || j > list.len() {
        1
    } else {
        let e = list[j - 1];
        if e.item && e.numbered && e.indent == indent {
            ordinal_from(list, indent, j - 1) + 1
        } else if e.item && e.indent > indent {
            ordinal_from(list, indent, j - 1)
        } else {
            1
        }
    }
}

/// 1-based ordinal of the list item at `idx` among its siblings: one more
/// than the numbered items at its indent directly above it (deeper indents
/// in between don't break the run); 1 for anything but a list item.
pub open spec fn spec_list_ordinal(list: Seq<ListEntry>, idx: int) -> int {
    if 0 <= idx < list.len() && list[idx].item {
        ordinal_from(list, list[idx].indent, idx)
    } else {
        1
    }
}

proof fn lemma_ordinal_bound(list: Seq<ListEntry>, indent: usize, j: int)
    requires
        0 <= j <= list.len(),
    ensures
        1 <= ordinal_from(list, indent, j) <= j + 1,
    decreases j,
{
    if j > 0 {
        lemma_ordinal_bound(list, indent, j - 1);
    }
}

proof fn lemma_ordinal_prefix(a: Seq<ListEntry>, b: Seq<ListEntry>, indent: usize, j: int)
    requires
        0 <= j <= a.len(),
        j <= b.len(),
        forall|x: int| 0 <= x < j ==> a[x] == b[x],
    ensures
        ordinal_from(a, indent, j) == ordinal_from(b, indent, j),
    decreases j,
{
    if j > 0 {
        lemma_ordinal_prefix(a, b, indent, j - 1);
    }
}

proof fn lemma_ordinal_shift(list: Seq<ListEntry>, p: int, indent: usize, j: int)
    requires
        0 <= p < list.len(),
        list[p].item,
        list[p].indent > indent,
        p + 1 <= j <= list.len(),
    ensures
        ordinal_from(list, indent, j) == ordinal_from(list.remove(p), indent, j - 1),
    decreases j,
{
    let r = list.remove(p);
    if j == p + 1 {
        lemma_ordinal_prefix(list, r, indent, p);
    } else {
        lemma_ordinal_shift(list, p, indent, j - 1);
        assert(r[j - 2] == list[j - 1]);
    }
}

/// A numbered item directly below a numbered item at the same indent takes
/// the next number.
pub proof fn lemma_ordinal_follows(list: Seq<ListEntry>, idx: int)
    requires
        1 <= idx < list.len(),
        list[idx].item,
        list[idx - 1].item,
        list[idx - 1].numbered,
        list[idx - 1].indent == list[idx].indent,
    ensures
        spec_list_ordinal(list, idx) == spec_list_ordinal(list, idx - 1) + 1,
{
}

/// Deeper items never count: taking out a more deeply indented item (of
/// any style) above an item leaves that item's ordinal as it was.
pub proof fn lemma_ordinal_skips_deeper(list: Seq<ListEntry>, idx: int, p: int)
    requires
        0 <= p < idx < list.len(),
        list[idx].item,
        list[p].item,
        list[p].indent > list[idx].indent,
    ensures
        spec_list_ordinal(list.remove(p), idx - 1) == spec_list_ordinal(list, idx),
{
    lemma_ordinal_shift(list, p, list[idx].indent, idx);
    assert(list.remove(p)[idx - 1] == list[idx]);
}

/// The ordinal of the list item at `idx` (see [`spec_list_ordinal`]).
pub fn list_ordinal(list: &[ListEntry], idx: usize) -> (n: usize)
    ensures
        n == spec_list_ordinal(list@, idx as int),
{
    if idx >= list.len() || !list[idx].item {
        return 1;
    }
    let indent = list[idx].indent;
    let mut n: usize = 1;
    let mut j: usize = idx;
    proof {
        lemma_ordinal_bound(list@, indent, idx as int);
    }
    while j > 0
        invariant
            j <= idx < list@.len(),
            indent == list@[idx as int].indent,
            n + ordinal_from(list@, indent, j as int) - 1 == ordinal_from(list@, indent, idx as int),
            1 <= n <= idx - j + 1,
        ensures
            n == ordinal_from(list@, indent, idx as int),
        decreases j,
    {
        let e = list[j - 1];
        if e.item && e.numbered && e.indent == indent {
            proof {
                lemma_ordinal_bound(list@, indent, (j - 1) as int);
            }
            n += 1;
            j -= 1;
        } else if e.item && e.indent > indent {
            j -= 1;
        } else {
            break;
        }
    }
    n
}

/* ---------------- block menu ---------------- */

/// A text kind a block can be turned into.
#[derive(Clone, Copy, Debug, PartialEq, Eq, Structural)]
pub enum TextKind {
    Paragraph,
    Heading(u8),
    BulletItem,
    NumberedItem,
    TodoItem,
    Quote,
    Callout,
}

/// What a row of the block menu does to the block it was opened on.
#[derive(Clone, Copy, Debug, PartialEq, Eq, Structural)]
pub enum MenuAction {
    MoveUp,
    MoveDown,
    Duplicate,
    Remove,
    /// Keep the text, change the kind (a todo item starts unchecked, a
    /// callout in the info tone with no title).
    TurnInto(TextKind),
    /// Wrap the top-level block into this many columns.
    WrapColumns(u8),
    /// Add a column to the columns block the block sits in.
    AddColumn,
    /// Remove the column the block sits in.
    RemoveColumn,
}

/// Where the block sits: at the top level (and whether it is a columns
/// block itself), or in a column of a columns block with `ncols` columns.
#[derive(Clone, Copy, Debug, PartialEq, Eq, Structural)]
pub enum BlockPlace {
    Root { is_columns: bool },
    Cell { ncols: usize },
}

/// One row of the block menu by its parts.
pub struct MenuEntryM {
    pub label: Seq<char>,
    pub disabled: bool,
    pub danger: bool,
    pub separator: bool,
    pub action: MenuAction,
}

/// A row with no flags set.
pub open spec fn plain(label: Seq<char>, action: MenuAction) -> MenuEntryM {
    MenuEntryM { label, disabled: false, danger: false, separator: false, action }
}

/// The rows every block gets: move up (disabled for the first sibling),
/// move down (disabled for the last), duplicate, and delete (in the
/// danger tone).
pub open spec fn base_rows(idx: int, siblings: int) -> Seq<MenuEntryM> {
    seq![
        MenuEntryM { disabled: idx == 0, ..plain("Move up"@, MenuAction::MoveUp) },
        MenuEntryM { disabled: idx + 1 >= siblings, ..plain("Move down"@, MenuAction::MoveDown) },
        plain("Duplicate"@, MenuAction::Duplicate),
        MenuEntryM { danger: true, ..plain("Delete"@, MenuAction::Remove) },
    ]
}

/// The "turn into" rows a text block gets, after a separator.
pub open spec fn turn_rows() -> Seq<MenuEntryM> {
    seq![
        MenuEntryM { separator: true, ..plain("Text"@, MenuAction::TurnInto(TextKind::Paragraph)) },
        plain("Heading 1"@, MenuAction::TurnInto(TextKind::Heading(1))),
        plain("Heading 2"@, MenuAction::TurnInto(TextKind::Heading(2))),
        plain("Heading 3"@, MenuAction::TurnInto(TextKind::Heading(3))),
        plain("Bullet list"@, MenuAction::TurnInto(TextKind::BulletItem)),
        plain("Numbered list"@, MenuAction::TurnInto(TextKind::NumberedItem)),
        plain("Todo list"@, MenuAction::TurnInto(TextKind::TodoItem)),
        plain("Quote"@, MenuAction::TurnInto(TextKind::Quote)),
        plain("Callout"@, MenuAction::TurnInto(TextKind::Callout)),
    ]
}

/// The layout rows: at the top level, wrapping into two or three columns
/// (not for a columns block); inside a column, adding a column (disabled
/// at four) and removing this one.
pub open spec fn place_rows(place: BlockPlace) -> Seq<MenuEntryM> {
    match place {
        BlockPlace::Root { is_columns } => if is_columns {
            Seq::empty()
        } else {
            seq![
                MenuEntryM { separator: true, ..plain("2 columns"@, MenuAction::WrapColumns(2)) },
                plain("3 columns"@, MenuAction::WrapColumns(3)),
            ]
        },
        BlockPlace::Cell { ncols } => seq![
            MenuEntryM { separator: true, disabled: ncols >= 4, ..plain("Add column"@, MenuAction::AddColumn) },
            plain("Remove column"@, MenuAction::RemoveColumn),
        ],
    }
}

/// The rows of the block menu of the block at sibling index `idx` among
/// `siblings`.
pub open spec fn spec_block_menu(idx: int, siblings: int, is_text: bool, place: BlockPlace) -> Seq<MenuEntryM> {
    base_rows(idx, siblings) + (if is_text { turn_rows() } else { Seq::empty() }) + place_rows(place)
}

/// The kind a "turn into" label names.
pub open spec fn label_kind(label: Seq<char>) -> Option<TextKind> {
    if label == "Text"@ {
        Some(TextKind::Paragraph)
    } else if label == "Heading 1"@ {
        Some(TextKind::Heading(1))
    } else if label == "Heading 2"@ {
        Some(TextKind::Heading(2))
    } else if label == "Heading 3"@ {
        Some(TextKind::Heading(3))
    } else if label == "Bullet list"@ {
        Some(TextKind::BulletItem)
    } else if label == "Numbered list"@ {
        Some(TextKind::NumberedItem)
    } else if label == "Todo list"@ {
        Some(TextKind::TodoItem)
    } else if label == "Quote"@ {
        Some(TextKind::Quote)
    } else if label == "Callout"@ {
        Some(TextKind::Callout)
    } else {
        None
    }
}

proof fn lemma_turn_rows_meaning()
    ensures
        forall|i: int|
            0 <= i < turn_rows().len() ==> turn_rows()[i].action == MenuAction::TurnInto(
                label_kind(#[trigger] turn_rows()[i].label)->0,
            ) && label_kind(turn_rows()[i].label) is Some,
        forall|i: int, j: int|
            0 <= i < j < turn_rows().len() ==> #[trigger] turn_rows()[i].action != #[trigger] turn_rows()[j].action,
{
    reveal_strlit("Text");
    reveal_strlit("Heading 1");
    reveal_strlit("Heading 2");
    reveal_strlit("Heading 3");
    reveal_strlit("Bullet list");
    reveal_strlit("Numbered list");
    reveal_strlit("Todo list");
    reveal_strlit("Quote");
    reveal_strlit("Callout");
    let t = turn_rows();
    assert(label_kind(t[0].label) == Some(TextKind::Paragraph));
    let hs = seq!["Heading 1"@, "Heading 2"@, "Heading 3"@];
    assert(hs[0][0] == 'H' && hs[1][0] == 'H' && hs[2][0] == 'H');
    assert(hs[0][8] == '1' && hs[1][8] == '2' && hs[2][8] == '3');
    assert("Text"@[0] == 'T' && "Text"@[1] == 'e');
    assert("Bullet list"@[0] == 'B');
    assert("Numbered list"@[0] == 'N');
    assert("Todo list"@[0] == 'T' && "Todo list"@[1] == 'o');
    assert("Quote"@[0] == 'Q');
    assert("Callout"@[0] == 'C');
    assert(label_kind(t[1].label) == Some(TextKind::Heading(1)));
    assert(label_kind(t[2].label) == Some(TextKind::Heading(2)));
    assert(label_kind(t[3].label) == Some(TextKind::Heading(3)));
    assert(label_kind(t[4].label) == Some(TextKind::BulletItem));
    assert(label_kind(t[5].label) == Some(TextKind::NumberedItem));
    assert(label_kind(t[6].label) == Some(TextKind::TodoItem));
    assert(label_kind(t[7].label) == Some(TextKind::Quote));
    assert(label_kind(t[8].label) == Some(TextKind::Callout));
}

/// Each "turn into" row of the block menu does what its label says, and
/// no two rows of the menu do the same thing.
pub proof fn lemma_block_menu_rows(idx: int, siblings: int, is_text: bool, place: BlockPlace)
    ensures
        ({
            let rows = spec_block_menu(idx, siblings, is_text, place);
            &&& forall|i: int|
                0 <= i < rows.len() && (#[trigger] rows[i]).action is TurnInto ==> label_kind(rows[i].label)
                    == Some(rows[i].action->TurnInto_0)
            &&& forall|i: int, j: int|
                0 <= i < j < rows.len() ==> (#[trigger] rows[i]).action != (#[trigger] rows[j]).action
        }),
{
    lemma_turn_rows_meaning();
    let b = base_rows(idx, siblings);
    let t: Seq<MenuEntryM> = if is_text { turn_rows() } else { Seq::empty() };
    let pl = place_rows(place);
    let rows = spec_block_menu(idx, siblings, is_text, place);
    assert(rows == b + t + pl);
    let bt = b + t;
    assert forall|i: int| 0 <= i < rows.len() && (#[trigger] rows[i]).action is TurnInto implies label_kind(
        rows[i].label,
    ) == Some(rows[i].action->TurnInto_0) by {
        if i < b.len() {
            assert(rows[i] == b[i]);
        } else if i < b.len() + t.len() {
            assert(rows[i] == t[i - b.len()]);
        } else {
            assert(rows[i] == pl[i - b.len() - t.len()]);
        }
    }
    assert forall|i: int, j: int| 0 <= i < j < rows.len() implies (#[trigger] rows[i]).action != (
    #[trigger] rows[j]).action by {
        let bl = b.len() as int;
        let tl = t.len() as int;
        if j < bl {
            assert(rows[i] == b[i] && rows[j] == b[j]);
        } else if j < bl + tl {
            assert(rows[j] == t[j - bl]);
            if i < bl {
                assert(rows[i] == b[i]);
            } else {
                assert(rows[i] == t[i - bl]);
            }
        } else {
            assert(rows[j] == pl[j - bl - tl]);
            if i < bl {
                assert(rows[i] == b[i]);
            } else if i < bl + tl {
                assert(rows[i] == t[i - bl]);
            } else {
                assert(rows[i] == pl[i - bl - tl]);
            }
        }
    }
}

/// Whether `items` and `actions` are the rows `es`, in order.
pub open spec fn rows_are(items: Seq<MenuItem>, actions: Seq<MenuAction>, es: Seq<MenuEntryM>) -> bool {
    &&& items.len() == es.len()
    &&& actions.len() == es.len()
    &&& forall|i: int|
        0 <= i < es.len() ==> {
            &&& (#[trigger] items[i]).label@ == es[i].label
            &&& items[i].icon is None
            &&& items[i].disabled == es[i].disabled
            &&& items[i].danger == es[i].danger
            &&& items[i].separator_before == es[i].separator
            &&& actions[i] == es[i].action
        }
}

fn push_row(
    items: &mut Vec<MenuItem>,
    actions: &mut Vec<MenuAction>,
    label: &str,
    disabled: bool,
    danger: bool,
    separator: bool,
    action: MenuAction,
    Ghost(es): Ghost<Seq<MenuEntryM>>,
)
    requires
        rows_are(old(items)@, old(actions)@, es),
    ensures
        rows_are(
            final(items)@,
            final(actions)@,
            es.push(MenuEntryM { label: label@, disabled, danger, separator, action }),
        ),
{
    let item = MenuItem::new(label).disabled(disabled).danger(danger).separator_before(separator);
    items.push(item);
    actions.push(action);
    let ghost e = MenuEntryM { label: label@, disabled, danger, separator, action };
    assert forall|i: int| 0 <= i < es.len() + 1 implies {
        &&& (#[trigger] items@[i]).label@ == es.push(e)[i].label
        &&& items@[i].icon is None
        &&& items@[i].disabled == es.push(e)[i].disabled
        &&& items@[i].danger == es.push(e)[i].danger
        &&& items@[i].separator_before == es.push(e)[i].separator
        &&& actions@[i] == es.push(e)[i].action
    } by {
        if i < es.len() {
            assert(items@[i] == old(items)@[i]);
            assert(actions@[i] == old(actions)@[i]);
        }
    }
}

/// The block menu: its rows and, row for row, what each does (see
/// [`spec_block_menu`]).
pub fn block_menu(idx: usize, siblings: usize, is_text: bool, place: BlockPlace) -> (r: (Vec<MenuItem>, Vec<MenuAction>))
    ensures
        rows_are(r.0@, r.1@, spec_block_menu(idx as int, siblings as int, is_text, place)),
{
    let mut items: Vec<MenuItem> = Vec::new();
    let mut actions: Vec<MenuAction> = Vec::new();
    let ghost es: Seq<MenuEntryM> = Seq::empty();
    push_row(&mut items, &mut actions, "Move up", idx == 0, false, false, MenuAction::MoveUp, Ghost(es));
    proof { es = es.push(MenuEntryM { label: "Move up"@, disabled: idx == 0, danger: false, separator: false, action: MenuAction::MoveUp }); }
    let last = idx >= siblings || siblings - idx <= 1;
    push_row(&mut items, &mut actions, "Move down", last, false, false, MenuAction::MoveDown, Ghost(es));
    proof { es = es.push(MenuEntryM { label: "Move down"@, disabled: last, danger: false, separator: false, action: MenuAction::MoveDown }); }
    push_row(&mut items, &mut actions, "Duplicate", false, false, false, MenuAction::Duplicate, Ghost(es));
    proof { es = es.push(plain("Duplicate"@, MenuAction::Duplicate)); }
    push_row(&mut items, &mut actions, "Delete", false, true, false, MenuAction::Remove, Ghost(es));
    proof {
        es = es.push(MenuEntryM { danger: true, ..plain("Delete"@, MenuAction::Remove) });
        assert(es =~= base_rows(idx as int, siblings as int));
    }
    if is_text {
        let ghost b = es;
        push_row(&mut items, &mut actions, "Text", false, false, true, MenuAction::TurnInto(TextKind::Paragraph), Ghost(es));
        proof { es = es.push(MenuEntryM { separator: true, ..plain("Text"@, MenuAction::TurnInto(TextKind::Paragraph)) }); }
        push_row(&mut items, &mut actions, "Heading 1", false, false, false, MenuAction::TurnInto(TextKind::Heading(1)), Ghost(es));
        proof { es = es.push(plain("Heading 1"@, MenuAction::TurnInto(TextKind::Heading(1)))); }
        push_row(&mut items, &mut actions, "Heading 2", false, false, false, MenuAction::TurnInto(TextKind::Heading(2)), Ghost(es));
        proof { es = es.push(plain("Heading 2"@, MenuAction::TurnInto(TextKind::Heading(2)))); }
        push_row(&mut items, &mut actions, "Heading 3", false, false, false, MenuAction::TurnInto(TextKind::Heading(3)), Ghost(es));
        proof { es = es.push(plain("Heading 3"@, MenuAction::TurnInto(TextKind::Heading(3)))); }
        push_row(&mut items, &mut actions, "Bullet list", false, false, false, MenuAction::TurnInto(TextKind::BulletItem), Ghost(es));
        proof { es = es.push(plain("Bullet list"@, MenuAction::TurnInto(TextKind::BulletItem))); }
        push_row(&mut items, &mut actions, "Numbered list", false, false, false, MenuAction::TurnInto(TextKind::NumberedItem), Ghost(es));
        proof { es = es.push(plain("Numbered list"@, MenuAction::TurnInto(TextKind::NumberedItem))); }
        push_row(&mut items, &mut actions, "Todo list", false, false, false, MenuAction::TurnInto(TextKind::TodoItem), Ghost(es));
        proof { es = es.push(plain("Todo list"@, MenuAction::TurnInto(TextKind::TodoItem))); }
        push_row(&mut items, &mut actions, "Quote", false, false, false, MenuAction::TurnInto(TextKind::Quote), Ghost(es));
        proof { es = es.push(plain("Quote"@, MenuAction::TurnInto(TextKind::Quote))); }
        push_row(&mut items, &mut actions, "Callout", false, false, false, MenuAction::TurnInto(TextKind::Callout), Ghost(es));
        proof {
            es = es.push(plain("Callout"@, MenuAction::TurnInto(TextKind::Callout)));
            assert(es =~= b + turn_rows());
        }
    }
    let ghost mid = es;
    match place {
        BlockPlace::Root { is_columns } => {
            if !is_columns {
                push_row(&mut items, &mut actions, "2 columns", false, false, true, MenuAction::WrapColumns(2), Ghost(es));
                proof { es = es.push(MenuEntryM { separator: true, ..plain("2 columns"@, MenuAction::WrapColumns(2)) }); }
                push_row(&mut items, &mut actions, "3 columns", false, false, false, MenuAction::WrapColumns(3), Ghost(es));
                proof { es = es.push(plain("3 columns"@, MenuAction::WrapColumns(3))); }
            }
        },
        BlockPlace::Cell { ncols } => {
            push_row(&mut items, &mut actions, "Add column", ncols >= 4, false, true, MenuAction::AddColumn, Ghost(es));
            proof { es = es.push(MenuEntryM { separator: true, disabled: ncols >= 4, ..plain("Add column"@, MenuAction::AddColumn) }); }
            push_row(&mut items, &mut actions, "Remove column", false, false, false, MenuAction::RemoveColumn, Ghost(es));
            proof { es = es.push(plain("Remove column"@, MenuAction::RemoveColumn)); }
        },
    }
    proof {
        assert(es =~= mid + place_rows(place));
        assert(es =~= spec_block_menu(idx as int, siblings as int, is_text, place));
    }
    (items, actions)
}

/* ---------------- editing keys ---------------- */

/// What a navigation key does in a table being edited.
#[derive(Clone, Copy, Debug, PartialEq, Eq, Structural)]
pub enum TableStep {
    /// Focus the cell at `(row, col)`; row 0 is the header.
    Goto(usize, usize),
    /// Append a body row and focus its cell in column `col`.
    AppendRow(usize),
    /// Leave the table: stop editing and give the focus up.
    Exit,
    /// Nothing to do.
    Stay,
}

/// The step for the focused cell `(r, c)` of a table with `ncols` columns
/// and `nrows` body rows (the header is row 0), given this frame's keys,
/// taken in this order: Tab moves to the next cell in reading order (none
/// past the last), Shift+Tab to the previous one (not before the first),
/// Enter down a row (appending one from the last row), Escape leaves.
pub open spec fn spec_table_step(r: int, c: int, ncols: int, nrows: int, tab: bool, shift_tab: bool, enter: bool, esc: bool) -> TableStep {
    if tab {
        let flat = r * ncols + c + 1;
        if flat < (nrows + 1) * ncols {
            TableStep::Goto((flat / ncols) as usize, (flat % ncols) as usize)
        } else {
            TableStep::Stay
        }
    } else if shift_tab {
        let flat = if r * ncols + c >= 1 { r * ncols + c - 1 } else { 0 };
        TableStep::Goto((flat / ncols) as usize, (flat % ncols) as usize)
    } else if enter {
        if r < nrows {
            TableStep::Goto((r + 1) as usize, c as usize)
        } else {
            TableStep::AppendRow(c as usize)
        }
    } else if esc {
        TableStep::Exit
    } else {
        TableStep::Stay
    }
}

/// The table's navigation step (see [`spec_table_step`]).
pub fn table_step(r: usize, c: usize, ncols: usize, nrows: usize, tab: bool, shift_tab: bool, enter: bool, esc: bool) -> (t: TableStep)
    requires
        ncols >= 1,
        r * ncols + c + 1 <= usize::MAX,
        (nrows + 1) * ncols <= usize::MAX,
    ensures
        t == spec_table_step(r as int, c as int, ncols as int, nrows as int, tab, shift_tab, enter, esc),
{
    assert(nrows + 1 <= (nrows + 1) * ncols) by (nonlinear_arith)
        requires
            ncols >= 1,
    ;
    assert(r * ncols <= r * ncols + c + 1);
    if tab {
        let flat = r * ncols + c + 1;
        if flat < (nrows + 1) * ncols {
            TableStep::Goto(flat / ncols, flat % ncols)
        } else {
            TableStep::Stay
        }
    } else if shift_tab {
        let here = r * ncols + c;
        let flat = if here >= 1 { here - 1 } else { 0 };
        TableStep::Goto(flat / ncols, flat % ncols)
    } else if enter {
        if r < nrows {
            TableStep::Goto(r + 1, c)
        } else {
            TableStep::AppendRow(c)
        }
    } else if esc {
        TableStep::Exit
    } else {
        TableStep::Stay
    }
}

/// The keys of a focused code block's body: Escape leaves editing, and
/// Alt+Up / Alt+Down move the block up / down (both, in that order, when
/// both came this frame). Enter stays a newline of the code.
pub fn code_body_keys(esc: bool, alt_up: bool, alt_down: bool) -> (r: (bool, Vec<MenuAction>))
    ensures
        r.0 == esc,
        r.1@ == (if alt_up { seq![MenuAction::MoveUp] } else { Seq::empty() }) + (if alt_down {
            seq![MenuAction::MoveDown]
        } else {
            Seq::empty()
        }),
{
    let mut moves: Vec<MenuAction> = Vec::new();
    if alt_up {
        moves.push(MenuAction::MoveUp);
    }
    if alt_down {
        moves.push(MenuAction::MoveDown);
    }
    assert(moves@ =~= (if alt_up { seq![MenuAction::MoveUp] } else { Seq::<MenuAction>::empty() }) + (
    if alt_down {
        seq![MenuAction::MoveDown]
    } else {
        Seq::<MenuAction>::empty()
    }));
    (esc, moves)
}

/// Whether typing into a paragraph opens the slash palette: the palette is
/// not already open, the block is a paragraph whose source was empty before
/// this edit, and the draft now starts with `/` (the slash stays in the
/// draft; what follows it filters the palette).
pub fn opens_slash(palette_open: bool, is_paragraph: bool, was_empty: bool, draft: &str) -> (b: bool)
    ensures
        b == (!palette_open && is_paragraph && was_empty && draft@.len() > 0 && draft@[0] == '/'),
{
    if palette_open || !is_paragraph || !was_empty {
        return false;
    }
    let chars = str_chars(draft);
    chars.len() > 0 && chars[0] == '/'
}

} // verus!
