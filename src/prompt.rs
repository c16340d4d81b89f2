//! The state of a line of input that the user types at a prompt.
use vstd::prelude::*;
use vstd::string::*;

use unicode_width::UnicodeWidthChar;

verus! {

/// The display width of a character as the Unicode width tables give it,
/// or `None` for a control character.
pub uninterp spec fn width_of(c: char) -> Option<usize>;

/// Relies on `UnicodeWidthChar::width` of unicode-width: the width of a
/// character depends on the character alone; printable ASCII is one column
/// wide, the C0 and C1 controls and DEL have no width, and no character is
/// wider than three columns.
#[verifier::external_body]
pub(crate) fn char_width(c: char) -> (r: Option<usize>)
    ensures
        r == width_of(c),
        (' ' <= c && c < '\x7F') ==> r == Some(1usize),
        (c < ' ' || ('\x7F' <= c && c < '\u{A0}')) ==> r is None,
        r is Some ==> r->0 <= 3,
{
    c.width()
}

/// Whether a character has the Unicode White_Space property, as
/// `char::is_whitespace` tells.
pub open spec fn is_white_space(c: char) -> bool {
    ('\u{9}' <= c && c <= '\u{D}') || c == ' ' || c == '\u{85}' || c == '\u{A0}' || c == '\u{1680}'
        || ('\u{2000}' <= c && c <= '\u{200A}') || c == '\u{2028}' || c == '\u{2029}' || c == '\u{202F}'
        || c == '\u{205F}' || c == '\u{3000}'
}

/// Whether a character has the Unicode White_Space property.
pub fn is_whitespace(c: char) -> (r: bool)
    ensures
        r == is_white_space(c),
{
    ('\u{9}' <= c && c <= '\u{D}') || c == ' ' || c == '\u{85}' || c == '\u{A0}' || c == '\u{1680}'
        || ('\u{2000}' <= c && c <= '\u{200A}') || c == '\u{2028}' || c == '\u{2029}' || c == '\u{202F}'
        || c == '\u{205F}' || c == '\u{3000}'
}

/// The columns a character takes in a prompt: control characters show as
/// `<XX>`, characters without a width as `<U+XXXX>`, the others as
/// themselves.
pub open spec fn spec_render_width(c: char) -> int {
    if c < ' ' || c == '\x7F' {
        4
    } else {
        match width_of(c) {
            Some(w) => w as int,
            None => 8,
        }
    }
}

/// The columns a character takes in a prompt.
pub fn render_width(c: char) -> (r: usize)
    ensures
        r == spec_render_width(c),
        r <= 8,
{
    if c < ' ' || c == '\x7F' {
        4
    } else {
        match char_width(c) {
            Some(w) => w,
            None => 8,
        }
    }
}

/// The upper-case hexadecimal digit of a value below sixteen.
pub open spec fn hex_digit(d: nat) -> char {
    if d < 10 { ((d + 48) as u8) as char } else { ((d + 55) as u8) as char }
}

/// The upper-case hexadecimal digits of a number, at least `min` of them.
pub open spec fn hex(n: nat, min: nat) -> Seq<char>
    decreases min + n,
{
    if n < 16 && min <= 1 {
        seq![hex_digit(n)]
    } else {
        hex(n / 16, if min > 0 { (min - 1) as nat } else { 0 }).push(hex_digit(n % 16))
    }
}

pub(crate) fn hex_string(n: u32, min: u32) -> (r: String)
    ensures
        r@ == hex(n as nat, min as nat),
    decreases min + n,
{
    if n < 16 && min <= 1 {
        let mut s = String::new();
        let d: u8 = n as u8;
        crate::text::push_char(&mut s, if d < 10 { (d + 48) as char } else { (d + 55) as char });
        proof {
            assert(s@ =~= seq![hex_digit(n as nat)]);
        }
        s
    } else {
        let mut s = hex_string(n / 16, if min > 0 { min - 1 } else { 0 });
        let d: u8 = (n % 16) as u8;
        crate::text::push_char(&mut s, if d < 10 { (d + 48) as char } else { (d + 55) as char });
        s
    }
}

/// How a prompt shows a character that it cannot show as itself: a
/// control character as `<XX>`, a character of no width as `<U+XXXX>`.
pub open spec fn special_form(c: char) -> Option<Seq<char>> {
    if c < ' ' || c == '\x7F' {
        Some(seq!['<'] + hex(c as nat, 2) + seq!['>'])
    } else if width_of(c) is None {
        Some(seq!['<', 'U', '+'] + hex(c as nat, 4) + seq!['>'])
    } else {
        None
    }
}

/// How a prompt shows a character that it cannot show as itself.
pub fn special_render(c: char) -> (r: Option<String>)
    ensures
        match r {
            Some(s) => special_form(c) == Some(s@),
            None => special_form(c) is None,
        },
{
    proof {
        reveal_strlit("<");
        reveal_strlit(">");
        reveal_strlit("<U+");
        assert("<"@ =~= seq!['<']);
        assert(">"@ =~= seq!['>']);
        assert("<U+"@ =~= seq!['<', 'U', '+']);
    }
    if c < ' ' || c == '\x7F' {
        let mut s = String::from_str("<");
        s.append(hex_string(c as u32, 2).as_str());
        s.append(">");
        Some(s)
    } else if char_width(c).is_none() {
        let mut s = String::from_str("<U+");
        s.append(hex_string(c as u32, 4).as_str());
        s.append(">");
        Some(s)
    } else {
        None
    }
}

/// The columns taken by the characters `from..to` of `v`.
pub open spec fn columns(v: Seq<char>, from: int, to: int) -> int
    decreases to - from,
{
    if to <= from {
        0
    } else {
        columns(v, from, to - 1) + spec_render_width(v[to - 1])
    }
}

/// The position after skipping the whitespace from `p` on.
pub open spec fn skip_space(v: Seq<char>, p: int) -> int
    decreases v.len() - p,
{
    if 0 <= p < v.len() && is_white_space(v[p]) { skip_space(v, p + 1) } else { p }
}

/// The position after skipping the non-whitespace from `p` on.
pub open spec fn skip_word(v: Seq<char>, p: int) -> int
    decreases v.len() - p,
{
    if 0 <= p < v.len() && !is_white_space(v[p]) { skip_word(v, p + 1) } else { p }
}

/// The position one word forwards from `p`: past any whitespace, then to
/// the end of the word.
pub open spec fn word_forwards(v: Seq<char>, p: int) -> int {
    skip_word(v, skip_space(v, p))
}

/// The position of the last non-whitespace character before `p`, or the
/// start.
pub open spec fn back_space(v: Seq<char>, p: int) -> int
    decreases p,
{
    if p <= 0 {
        0
    } else if !is_white_space(v[p - 1]) {
        p - 1
    } else {
        back_space(v, p - 1)
    }
}

/// The start of the word that holds position `q`.
pub open spec fn back_word(v: Seq<char>, q: int) -> int
    decreases q,
{
    if q <= 0 {
        0
    } else if is_white_space(v[q]) {
        q + 1
    } else {
        back_word(v, q - 1)
    }
}

/// The position one word backwards from `p`: the start of the previous word.
pub open spec fn word_backwards(v: Seq<char>, p: int) -> int {
    back_word(v, back_space(v, p))
}

/// Move one word forwards from `position`.
pub fn move_word_forwards(value: &Vec<char>, position: usize) -> (r: usize)
    requires
        position <= value@.len(),
    ensures
        r == word_forwards(value@, position as int),
        position <= r <= value@.len(),
{
    let len = value.len();
    let mut p = position;
    while p < len && is_whitespace(value[p])
        invariant
            position <= p <= len,
            len == value@.len(),
            skip_space(value@, p as int) == skip_space(value@, position as int),
        decreases len - p,
    {
        p = p + 1;
    }
    let ghost q = p;
    while p < len && !is_whitespace(value[p])
        invariant
            q <= p <= len,
            position <= q,
            len == value@.len(),
            q == skip_space(value@, position as int),
            skip_word(value@, p as int) == skip_word(value@, q as int),
        decreases len - p,
    {
        p = p + 1;
    }
    p
}

/// Move one word backwards from `position`.
pub fn move_word_backwards(value: &Vec<char>, position: usize) -> (r: usize)
    requires
        position <= value@.len(),
    ensures
        r == word_backwards(value@, position as int),
        r <= position,
{
    let mut p = position;
    let mut found = false;
    while p > 0 && !found
        invariant
            p <= position <= value@.len(),
            !found ==> back_space(value@, p as int) == back_space(value@, position as int),
            found ==> p as int == back_space(value@, position as int) && p < position && !is_white_space(value@[p as int]),
        decreases p, if found { 0int } else { 1int },
    {
        p = p - 1;
        if !is_whitespace(value[p]) {
            found = true;
        }
    }
    let ghost q = p;
    proof {
        if !found {
            assert(p == 0);
        }
        assert(q == back_space(value@, position as int));
    }
    let mut done = false;
    while p > 0 && !done
        invariant
            p <= q,
            q <= position <= value@.len(),
            q < position || q == 0,
            q > 0 ==> !is_white_space(value@[q as int]),
            !done ==> back_word(value@, p as int) == back_word(value@, q as int),
            done ==> p as int == back_word(value@, q as int) && p <= q,
        decreases if done { 0int } else { p + 1 },
    {
        if is_whitespace(value[p]) {
            p = p + 1;
            done = true;
        } else {
            p = p - 1;
        }
    }
    p
}

/// What the screen must do after an edit of the prompt.
#[derive(Clone, Copy, Debug, PartialEq, Eq, Structural)]
pub enum PromptAction {
    /// Draw the prompt again.
    RefreshPrompt,
    /// Only write this character at the cursor.
    Echo(char),
}

/// The value the user is typing, the first character shown, and the
/// cursor.
pub struct PromptState {
    value: Vec<char>,
    offset: usize,
    position: usize,
}

/// The largest number of characters a prompt holds: as many as leave
/// room to count their columns, eight at most each.
pub const MAX_PROMPT_CHARS: usize = usize::MAX / 16;

impl PromptState {
    /// The characters typed.
    pub closed spec fn chars(&self) -> Seq<char> {
        self.value@
    }

    /// The index of the first character shown.
    pub closed spec fn spec_offset(&self) -> int {
        self.offset as int
    }

    /// The index of the cursor.
    pub closed spec fn spec_position(&self) -> int {
        self.position as int
    }

    /// The cursor is within the value, and the value is not huge.
    pub open spec fn wf(&self) -> bool {
        &&& self.spec_position() <= self.chars().len()
        &&& self.chars().len() <= MAX_PROMPT_CHARS
        &&& self.spec_offset() <= self.chars().len()
    }

    /// An empty prompt.
    pub fn new() -> (r: PromptState)
        ensures
            r.wf(),
            r.chars() == Seq::<char>::empty(),
            r.spec_position() == 0,
            r.spec_offset() == 0,
    {
        PromptState { value: Vec::new(), offset: 0, position: 0 }
    }

    /// A prompt holding a stored value, with the cursor at its end.
    pub fn load(data: &str) -> (r: PromptState)
        requires
            data@.len() <= MAX_PROMPT_CHARS,
        ensures
            r.wf(),
            r.chars() == data@,
            r.spec_position() == data@.len(),
            r.spec_offset() == 0,
    {
        let n = data.unicode_len();
        let mut value: Vec<char> = Vec::new();
        let mut i: usize = 0;
        while i < n
            invariant
                i <= n,
                n == data@.len(),
                value@ == data@.subrange(0, i as int),
            decreases n - i,
        {
            value.push(data.get_char(i));
            proof {
                assert(data@.subrange(0, i + 1) == data@.subrange(0, i as int).push(data@[i as int]));
            }
            i = i + 1;
        }
        proof {
            assert(data@.subrange(0, n as int) == data@);
        }
        PromptState { value, offset: 0, position: n }
    }

    /// The value typed, as a string.
    pub fn save(&self) -> (r: String)
        ensures
            r@ == self.chars(),
    {
        let mut out = String::new();
        let mut i: usize = 0;
        while i < self.value.len()
            invariant
                i <= self.value@.len(),
                out@ == self.value@.subrange(0, i as int),
            decreases self.value@.len() - i,
        {
            crate::text::push_char(&mut out, self.value[i]);
            proof {
                assert(self.value@.subrange(0, i + 1) == self.value@.subrange(0, i as int).push(self.value@[i as int]));
            }
            i = i + 1;
        }
        proof {
            assert(self.value@.subrange(0, self.value@.len() as int) == self.value@);
        }
        out
    }

    /// The index of the cursor in the value.
    pub fn position(&self) -> (r: usize)
        ensures
            r == self.spec_position(),
    {
        self.position
    }

    /// The index of the first character shown.
    pub fn offset(&self) -> (r: usize)
        ensures
            r == self.spec_offset(),
    {
        self.offset
    }

    /// The characters typed.
    pub fn value(&self) -> (r: &Vec<char>)
        ensures
            r@ == self.chars(),
    {
        &self.value
    }

    /// The column of the cursor, counted from the first character shown.
    pub fn cursor_position(&self) -> (r: usize)
        requires
            self.wf(),
        ensures
            self.spec_offset() <= self.spec_position() ==> r == columns(self.chars(), self.spec_offset(), self.spec_position()),
            self.spec_offset() > self.spec_position() ==> r == 0,
    {
        let mut position: usize = 0;
        let mut i: usize = self.offset;
        if self.offset > self.position {
            return 0;
        }
        while i < self.position
            invariant
                self.offset <= i <= self.position,
                self.wf(),
                position == columns(self.value@, self.offset as int, i as int),
                position <= 8 * (i - self.offset),
            decreases self.position - i,
        {
            position = position + render_width(self.value[i]);
            i = i + 1;
        }
        position
    }

    /// Keep the cursor in view in a field of `width` columns: the first
    /// character shown is at most the cursor, and at least four columns
    /// are kept visible on either side of the cursor where possible.
    pub fn clamp_offset(&mut self, width: usize)
        requires
            old(self).wf(),
        ensures
            final(self).wf(),
            final(self).chars() == old(self).chars(),
            final(self).spec_position() == old(self).spec_position(),
            final(self).spec_offset() <= final(self).spec_position(),
    {
        if self.offset > self.position {
            self.offset = self.position;
        }
        let limit = if width > 5 { width - 5 } else { 0 };
        while self.cursor_position() < 5 && self.offset > 0
            invariant
                self.wf(),
                self.offset <= self.position,
                self.value@ == old(self).value@,
                self.position == old(self).position,
            decreases self.offset,
        {
            self.offset = self.offset - 1;
        }
        while self.cursor_position() > limit && self.offset < self.position
            invariant
                self.wf(),
                self.offset <= self.position,
                self.value@ == old(self).value@,
                self.position == old(self).position,
            decreases self.position - self.offset,
        {
            self.offset = self.offset + 1;
        }
    }

    /// Insert a character at the cursor, and move the cursor past it.  When
    /// the cursor is at the end and there is room, only the character needs
    /// writing.
    pub fn insert_char(&mut self, c: char, width: usize) -> (r: Option<PromptAction>)
        requires
            old(self).wf(),
            old(self).chars().len() < MAX_PROMPT_CHARS,
        ensures
            final(self).wf(),
            final(self).chars() == old(self).chars().insert(old(self).spec_position(), c),
            final(self).spec_position() == old(self).spec_position() + 1,
            final(self).spec_offset() == old(self).spec_offset(),
            r is Some,
    {
        self.value.insert(self.position, c);
        self.position = self.position + 1;
        let limit = if width > 5 { width - 5 } else { 0 };
        if self.position == self.value.len() && self.cursor_position() < limit {
            Some(PromptAction::Echo(c))
        } else {
            Some(PromptAction::RefreshPrompt)
        }
    }

    /// Insert text at the cursor, and move the cursor past it.
    pub fn insert_str(&mut self, s: &str) -> (r: Option<PromptAction>)
        requires
            old(self).wf(),
            old(self).chars().len() + s@.len() <= MAX_PROMPT_CHARS,
        ensures
            final(self).wf(),
            final(self).chars() == old(self).chars().subrange(0, old(self).spec_position()) + s@
                + old(self).chars().subrange(old(self).spec_position(), old(self).chars().len() as int),
            final(self).spec_position() == old(self).spec_position() + s@.len(),
            final(self).spec_offset() == old(self).spec_offset(),
            r == Some(PromptAction::RefreshPrompt),
    {
        let ghost before = self.value@;
        let mut tail = self.value.split_off(self.position);
        let n = s.unicode_len();
        let mut i: usize = 0;
        while i < n
            invariant
                i <= n,
                n == s@.len(),
                self.value@ == before.subrange(0, old(self).position as int) + s@.subrange(0, i as int),
                self.offset == old(self).offset,
                self.position == old(self).position,
                before == old(self).value@,
                before.len() + n <= MAX_PROMPT_CHARS,
            decreases n - i,
        {
            self.value.push(s.get_char(i));
            proof {
                assert(s@.subrange(0, i + 1) == s@.subrange(0, i as int).push(s@[i as int]));
            }
            i = i + 1;
        }
        self.value.append(&mut tail);
        self.position = self.position + n;
        proof {
            assert(s@.subrange(0, n as int) == s@);
        }
        Some(PromptAction::RefreshPrompt)
    }

    /// Delete the character before the cursor.
    pub fn delete_prev_char(&mut self) -> (r: Option<PromptAction>)
        requires
            old(self).wf(),
        ensures
            final(self).wf(),
            old(self).spec_position() > 0 ==> r == Some(PromptAction::RefreshPrompt)
                && final(self).chars() == old(self).chars().remove(old(self).spec_position() - 1)
                && final(self).spec_position() == old(self).spec_position() - 1,
            old(self).spec_position() == 0 ==> r is None && final(self).chars() == old(self).chars()
                && final(self).spec_position() == 0,
    {
        if self.position > 0 {
            self.value.remove(self.position - 1);
            self.position = self.position - 1;
            if self.offset > self.value.len() {
                self.offset = self.value.len();
            }
            Some(PromptAction::RefreshPrompt)
        } else {
            None
        }
    }

    /// Delete the character at the cursor.
    pub fn delete_next_char(&mut self) -> (r: Option<PromptAction>)
        requires
            old(self).wf(),
        ensures
            final(self).wf(),
            final(self).spec_position() == old(self).spec_position(),
            old(self).spec_position() < old(self).chars().len() ==> r == Some(PromptAction::RefreshPrompt)
                && final(self).chars() == old(self).chars().remove(old(self).spec_position()),
            old(self).spec_position() == old(self).chars().len() ==> r is None && final(self).chars() == old(self).chars(),
    {
        if self.position < self.value.len() {
            self.value.remove(self.position);
            if self.offset > self.value.len() {
                self.offset = self.value.len();
            }
            Some(PromptAction::RefreshPrompt)
        } else {
            None
        }
    }

    /// Remove the characters `from..to` of the value.
    fn remove_range(&mut self, from: usize, to: usize)
        requires
            old(self).wf(),
            from <= to <= old(self).chars().len(),
        ensures
            final(self).chars() == old(self).chars().subrange(0, from as int)
                + old(self).chars().subrange(to as int, old(self).chars().len() as int),
            final(self).spec_position() == old(self).spec_position(),
            final(self).spec_offset() <= old(self).spec_offset(),
            final(self).spec_offset() <= final(self).chars().len(),
    {
        let mut tail = self.value.split_off(to);
        self.value.truncate(from);
        self.value.append(&mut tail);
        if self.offset > self.value.len() {
            self.offset = self.value.len();
        }
    }

    /// Delete the word before the cursor.
    pub fn delete_prev_word(&mut self) -> (r: Option<PromptAction>)
        requires
            old(self).wf(),
        ensures
            final(self).wf(),
            ({
                let dest = word_backwards(old(self).chars(), old(self).spec_position());
                if dest != old(self).spec_position() {
                    &&& r == Some(PromptAction::RefreshPrompt)
                    &&& final(self).chars() == old(self).chars().subrange(0, dest) + old(self).chars().subrange(
                        old(self).spec_position(), old(self).chars().len() as int)
                    &&& final(self).spec_position() == dest
                } else {
                    r is None && final(self).chars() == old(self).chars() && final(self).spec_position() == old(self).spec_position()
                }
            }),
    {
        let dest = move_word_backwards(&self.value, self.position);
        if dest != self.position {
            let position = self.position;
            self.remove_range(dest, position);
            self.position = dest;
            Some(PromptAction::RefreshPrompt)
        } else {
            None
        }
    }

    /// Delete the word after the cursor.
    pub fn delete_next_word(&mut self) -> (r: Option<PromptAction>)
        requires
            old(self).wf(),
        ensures
            final(self).wf(),
            final(self).spec_position() == old(self).spec_position(),
            ({
                let dest = word_forwards(old(self).chars(), old(self).spec_position());
                if dest != old(self).spec_position() {
                    &&& r == Some(PromptAction::RefreshPrompt)
                    &&& final(self).chars() == old(self).chars().subrange(0, old(self).spec_position()) + old(self).chars().subrange(
                        dest, old(self).chars().len() as int)
                } else {
                    r is None && final(self).chars() == old(self).chars()
                }
            }),
    {
        let dest = move_word_forwards(&self.value, self.position);
        if dest != self.position {
            let position = self.position;
            self.remove_range(position, dest);
            Some(PromptAction::RefreshPrompt)
        } else {
            None
        }
    }

    /// Move the cursor right by one character, and past any characters of
    /// no width that follow.
    pub fn move_next_char(&mut self) -> (r: Option<PromptAction>)
        requires
            old(self).wf(),
        ensures
            final(self).wf(),
            final(self).chars() == old(self).chars(),
            old(self).spec_position() < old(self).chars().len() ==> r == Some(PromptAction::RefreshPrompt)
                && final(self).spec_position() > old(self).spec_position()
                && (final(self).spec_position() == final(self).chars().len()
                    || spec_render_width(final(self).chars()[final(self).spec_position()]) != 0)
                && forall|i: int| old(self).spec_position() < i < final(self).spec_position() ==> spec_render_width(#[trigger] final(self).chars()[i]) == 0,
            old(self).spec_position() == old(self).chars().len() ==> r is None && final(self).spec_position() == old(self).spec_position(),
    {
        if self.position < self.value.len() {
            let start = self.position;
            self.position = self.position + 1;
            while self.position < self.value.len() && render_width(self.value[self.position]) == 0
                invariant
                    start < self.position <= self.value@.len(),
                    self.wf(),
                    self.value@ == old(self).value@,
                    start == old(self).position,
                    self.offset == old(self).offset,
                    forall|i: int| start < i < self.position ==> spec_render_width(#[trigger] self.value@[i]) == 0,
                decreases self.value@.len() - self.position,
            {
                self.position = self.position + 1;
            }
            Some(PromptAction::RefreshPrompt)
        } else {
            None
        }
    }

    /// Move the cursor left by one character, and before any characters of
    /// no width that precede.
    pub fn move_prev_char(&mut self) -> (r: Option<PromptAction>)
        requires
            old(self).wf(),
        ensures
            final(self).wf(),
            final(self).chars() == old(self).chars(),
            old(self).spec_position() > 0 ==> r == Some(PromptAction::RefreshPrompt)
                && final(self).spec_position() < old(self).spec_position()
                && (final(self).spec_position() == 0 || spec_render_width(final(self).chars()[final(self).spec_position()]) != 0)
                && forall|i: int| final(self).spec_position() < i < old(self).spec_position() ==> spec_render_width(#[trigger] final(self).chars()[i]) == 0,
            old(self).spec_position() == 0 ==> r is None && final(self).spec_position() == 0,
    {
        if self.position > 0 {
            let mut done = false;
            let start = self.position;
            while self.position > 0 && !done
                invariant
                    self.position <= start,
                    start == old(self).position,
                    self.wf(),
                    self.value@ == old(self).value@,
                    self.offset == old(self).offset,
                    done ==> self.position < start && spec_render_width(self.value@[self.position as int]) != 0,
                    !done ==> forall|i: int| self.position <= i < start && i > self.position - 1 ==> (i == start || spec_render_width(#[trigger] self.value@[i]) == 0),
                    !done && self.position < start ==> spec_render_width(self.value@[self.position as int]) == 0,
                    forall|i: int| self.position < i < start ==> spec_render_width(#[trigger] self.value@[i]) == 0,
                decreases self.position, if done { 0int } else { 1int },
            {
                self.position = self.position - 1;
                if render_width(self.value[self.position]) != 0 {
                    done = true;
                }
            }
            Some(PromptAction::RefreshPrompt)
        } else {
            None
        }
    }

    /// Move the cursor one word right.
    pub fn move_next_word(&mut self) -> (r: Option<PromptAction>)
        requires
            old(self).wf(),
        ensures
            final(self).wf(),
            final(self).chars() == old(self).chars(),
            final(self).spec_position() == word_forwards(old(self).chars(), old(self).spec_position()),
            r is Some <==> final(self).spec_position() != old(self).spec_position(),
            r is Some ==> r == Some(PromptAction::RefreshPrompt),
    {
        let dest = move_word_forwards(&self.value, self.position);
        if dest != self.position {
            self.position = dest;
            Some(PromptAction::RefreshPrompt)
        } else {
            None
        }
    }

    /// Move the cursor one word left.
    pub fn move_prev_word(&mut self) -> (r: Option<PromptAction>)
        requires
            old(self).wf(),
        ensures
            final(self).wf(),
            final(self).chars() == old(self).chars(),
            final(self).spec_position() == word_backwards(old(self).chars(), old(self).spec_position()),
            r is Some <==> final(self).spec_position() != old(self).spec_position(),
            r is Some ==> r == Some(PromptAction::RefreshPrompt),
    {
        let dest = move_word_backwards(&self.value, self.position);
        if dest != self.position {
            self.position = dest;
            Some(PromptAction::RefreshPrompt)
        } else {
            None
        }
    }

    /// Delete from the cursor to the end.
    pub fn delete_to_end(&mut self) -> (r: Option<PromptAction>)
        requires
            old(self).wf(),
        ensures
            final(self).wf(),
            final(self).chars() == old(self).chars().subrange(0, old(self).spec_position()),
            final(self).spec_position() == old(self).spec_position(),
            r is Some <==> old(self).spec_position() < old(self).chars().len(),
            r is Some ==> r == Some(PromptAction::RefreshPrompt),
    {
        if self.position < self.value.len() {
            let (p, n) = (self.position, self.value.len());
            self.remove_range(p, n);
            proof {
                assert(self.value@ =~= old(self).value@.subrange(0, p as int));
            }
            Some(PromptAction::RefreshPrompt)
        } else {
            proof {
                assert(self.value@ =~= old(self).value@.subrange(0, self.position as int));
            }
            None
        }
    }

    /// Delete from the start to the cursor.
    pub fn delete_to_start(&mut self) -> (r: Option<PromptAction>)
        requires
            old(self).wf(),
        ensures
            final(self).wf(),
            final(self).chars() == old(self).chars().subrange(old(self).spec_position(), old(self).chars().len() as int),
            final(self).spec_position() == 0,
            r is Some <==> old(self).spec_position() > 0,
            r is Some ==> r == Some(PromptAction::RefreshPrompt),
    {
        if self.position > 0 {
            let p = self.position;
            self.remove_range(0, p);
            self.position = 0;
            proof {
                assert(self.value@ =~= old(self).value@.subrange(p as int, old(self).value@.len() as int));
            }
            Some(PromptAction::RefreshPrompt)
        } else {
            proof {
                assert(self.value@ =~= old(self).value@.subrange(0, old(self).value@.len() as int));
            }
            None
        }
    }

    /// Move the cursor to the end.
    pub fn move_to_end(&mut self) -> (r: Option<PromptAction>)
        requires
            old(self).wf(),
        ensures
            final(self).wf(),
            final(self).chars() == old(self).chars(),
            final(self).spec_position() == old(self).chars().len(),
            r == Some(PromptAction::RefreshPrompt),
    {
        self.position = self.value.len();
        Some(PromptAction::RefreshPrompt)
    }

    /// Move the cursor to the start.
    pub fn move_to_start(&mut self) -> (r: Option<PromptAction>)
        requires
            old(self).wf(),
        ensures
            final(self).wf(),
            final(self).chars() == old(self).chars(),
            final(self).spec_position() == 0,
            r == Some(PromptAction::RefreshPrompt),
    {
        self.position = 0;
        Some(PromptAction::RefreshPrompt)
    }

    /// Swap the character before the cursor with the one at it, and move
    /// past them; at the end, swap the last two characters.
    pub fn transpose_chars(&mut self) -> (r: Option<PromptAction>)
        requires
            old(self).wf(),
        ensures
            final(self).wf(),
            ({
                let v = old(self).chars();
                let p = old(self).spec_position();
                if p > 0 && v.len() > 1 {
                    let q = if p < v.len() { p + 1 } else { p };
                    &&& r == Some(PromptAction::RefreshPrompt)
                    &&& final(self).spec_position() == q
                    &&& final(self).chars() == v.update(q - 2, v[q - 1]).update(q - 1, v[q - 2])
                } else {
                    r is None && final(self).chars() == v && final(self).spec_position() == p
                }
            }),
    {
        if self.position > 0 && self.value.len() > 1 {
            if self.position < self.value.len() {
                self.position = self.position + 1;
            }
            let a = self.value[self.position - 2];
            let b = self.value[self.position - 1];
            self.value[self.position - 2] = b;
            self.value[self.position - 1] = a;
            Some(PromptAction::RefreshPrompt)
        } else {
            None
        }
    }
}

} // verus!
