//! Splitting a line of text into words and fields, and reading unsigned
//! numbers, with the meaning of each fixed by a specification over
//! sequences of characters.

use vstd::prelude::*;

verus! {

/// Whether `c` has the Unicode property `White_Space`.
pub open spec fn is_space(c: char) -> bool {
    let n = c as u32;
    ||| 0x09 <= n <= 0x0D
    ||| n == 0x20
    ||| n == 0x85
    ||| n == 0xA0
    ||| n == 0x1680
    ||| 0x2000 <= n <= 0x200A
    ||| n == 0x2028
    ||| n == 0x2029
    ||| n == 0x202F
    ||| n == 0x205F
    ||| n == 0x3000
}

/// Index of the first character at or after `from` that is not white space,
/// or the end of `s`.
pub open spec fn word_start(s: Seq<char>, from: int) -> int
    decreases s.len() - from,
{
    if 0 <= from < s.len() && is_space(s[from]) {
        word_start(s, from + 1)
    } else {
        from
    }
}

/// Index of the first white space character at or after `from`, or the end
/// of `s`.
pub open spec fn word_end(s: Seq<char>, from: int) -> int
    decreases s.len() - from,
{
    if 0 <= from < s.len() && !is_space(s[from]) {
        word_end(s, from + 1)
    } else {
        from
    }
}

/// The maximal runs of characters other than white space that begin at or
/// after `from`, in order.
pub open spec fn words_from(s: Seq<char>, from: int) -> Seq<Seq<char>>
    decreases s.len() - from,
    via words_from_decreases
{
    let start = word_start(s, from);
    if 0 <= from && start < s.len() {
        seq![s.subrange(start, word_end(s, start))] + words_from(s, word_end(s, start))
    } else {
        Seq::empty()
    }
}

#[via_fn]
proof fn words_from_decreases(s: Seq<char>, from: int) {
    let start = word_start(s, from);
    if 0 <= from && start < s.len() {
        lemma_word_start(s, from);
        lemma_word_end(s, start);
    }
}

/// The words of a line: what is left when it is cut at white space and the
/// empty pieces are dropped.
pub open spec fn words(s: Seq<char>) -> Seq<Seq<char>> {
    words_from(s, 0)
}

/// `word_start` moves forward only, stops inside `s` on a character that is
/// not white space, and passes white space only.
pub proof fn lemma_word_start(s: Seq<char>, from: int)
    requires
        0 <= from <= s.len(),
    ensures
        from <= word_start(s, from) <= s.len(),
        word_start(s, from) < s.len() ==> !is_space(s[word_start(s, from)]),
        forall|i: int| from <= i < word_start(s, from) ==> is_space(#[trigger] s[i]),
    decreases s.len() - from,
{
    if from < s.len() && is_space(s[from]) {
        lemma_word_start(s, from + 1);
    }
}

/// `word_end` moves forward only, by at least one character where a word
/// begins, and passes no white space.
pub proof fn lemma_word_end(s: Seq<char>, from: int)
    requires
        0 <= from <= s.len(),
    ensures
        from <= word_end(s, from) <= s.len(),
        from < s.len() && !is_space(s[from]) ==> from < word_end(s, from),
        word_end(s, from) < s.len() ==> is_space(s[word_end(s, from)]),
        forall|i: int| from <= i < word_end(s, from) ==> !is_space(#[trigger] s[i]),
    decreases s.len() - from,
{
    if from < s.len() && !is_space(s[from]) {
        lemma_word_end(s, from + 1);
    }
}

/// Every word has at least one character, and none that is white space.
pub proof fn lemma_words_hold_no_space(s: Seq<char>, from: int)
    requires
        0 <= from <= s.len(),
    ensures
        forall|i: int|
            0 <= i < words_from(s, from).len() ==> (#[trigger] words_from(s, from)[i]).len() > 0,
        forall|i: int, j: int|
            0 <= i < words_from(s, from).len() && 0 <= j < words_from(s, from)[i].len()
                ==> !is_space(#[trigger] words_from(s, from)[i][j]),
    decreases s.len() - from,
{
    let start = word_start(s, from);
    lemma_word_start(s, from);
    if start < s.len() {
        let end = word_end(s, start);
        lemma_word_end(s, start);
        lemma_words_hold_no_space(s, end);
        let all = words_from(s, from);
        let rest = words_from(s, end);
        assert forall|i: int| 0 <= i < all.len() implies (#[trigger] all[i]).len() > 0 by {
            if i > 0 {
                assert(all[i] == rest[i - 1]);
            }
        }
        assert forall|i: int, j: int| 0 <= i < all.len() && 0 <= j < all[i].len() implies !is_space(
            #[trigger] all[i][j],
        ) by {
            if i > 0 {
                assert(all[i] == rest[i - 1]);
            } else {
                assert(all[0][j] == s[start + j]);
            }
        }
    }
}

/// Index of the first `separator` at or after `from`, or the end of `s`.
pub open spec fn field_end(s: Seq<char>, separator: char, from: int) -> int
    decreases s.len() - from,
{
    if 0 <= from < s.len() && s[from] != separator {
        field_end(s, separator, from + 1)
    } else {
        from
    }
}

/// The pieces of `s` from `from` on when it is cut at every `separator`.
/// There is always at least one piece, and a piece may be empty.
pub open spec fn fields_from(s: Seq<char>, separator: char, from: int) -> Seq<Seq<char>>
    decreases s.len() - from,
    via fields_from_decreases
{
    let end = field_end(s, separator, from);
    if 0 <= from && end < s.len() {
        seq![s.subrange(from, end)] + fields_from(s, separator, end + 1)
    } else {
        seq![s.subrange(from, s.len() as int)]
    }
}

#[via_fn]
proof fn fields_from_decreases(s: Seq<char>, separator: char, from: int) {
    if 0 <= from && from <= s.len() {
        lemma_field_end(s, separator, from);
    }
}

/// The pieces of `s` when it is cut at every `separator`.
pub open spec fn fields(s: Seq<char>, separator: char) -> Seq<Seq<char>> {
    fields_from(s, separator, 0)
}

/// `field_end` moves forward only and stops on the first separator.
pub proof fn lemma_field_end(s: Seq<char>, separator: char, from: int)
    requires
        0 <= from <= s.len(),
    ensures
        from <= field_end(s, separator, from) <= s.len(),
        field_end(s, separator, from) < s.len() ==> s[field_end(s, separator, from)] == separator,
        forall|i: int| from <= i < field_end(s, separator, from) ==> #[trigger] s[i] != separator,
    decreases s.len() - from,
{
    if from < s.len() && s[from] != separator {
        lemma_field_end(s, separator, from + 1);
    }
}

/// Cutting at a separator always leaves at least one piece.
pub proof fn lemma_fields_nonempty(s: Seq<char>, separator: char, from: int)
    ensures
        fields_from(s, separator, from).len() >= 1,
{
}

/// No piece holds the separator.
pub proof fn lemma_fields_hold_no_separator(s: Seq<char>, separator: char, from: int)
    requires
        0 <= from <= s.len(),
    ensures
        forall|i: int, j: int|
            0 <= i < fields_from(s, separator, from).len() && 0 <= j < fields_from(
                s,
                separator,
                from,
            )[i].len() ==> #[trigger] fields_from(s, separator, from)[i][j] != separator,
    decreases s.len() - from,
{
    let end = field_end(s, separator, from);
    lemma_field_end(s, separator, from);
    let all = fields_from(s, separator, from);
    if end < s.len() {
        lemma_fields_hold_no_separator(s, separator, end + 1);
        let rest = fields_from(s, separator, end + 1);
        assert forall|i: int, j: int|
            0 <= i < all.len() && 0 <= j < all[i].len() implies #[trigger] all[i][j]
            != separator by {
            if i > 0 {
                assert(all[i] == rest[i - 1]);
            } else {
                assert(all[0][j] == s[from + j]);
            }
        }
    } else {
        assert forall|i: int, j: int|
            0 <= i < all.len() && 0 <= j < all[i].len() implies #[trigger] all[i][j]
            != separator by {
            assert(all[0][j] == s[from + j]);
        }
    }
}

/// Whether `c` is one of the ten decimal digits.
pub open spec fn is_digit(c: char) -> bool {
    '0' <= c <= '9'
}

/// The number that the digit `c` stands for.
pub open spec fn digit_value(c: char) -> nat {
    (c as u32 - '0' as u32) as nat
}

/// The number written by the decimal digits `s`, most significant first.
pub open spec fn digits_value(s: Seq<char>) -> nat
    decreases s.len(),
{
    if s.len() == 0 {
        0
    } else {
        digits_value(s.drop_last()) * 10 + digit_value(s.last())
    }
}

/// Whether every character of `s` is a decimal digit.
pub open spec fn all_digits(s: Seq<char>) -> bool {
    forall|i: int| 0 <= i < s.len() ==> is_digit(#[trigger] s[i])
}

/// `s` without a leading plus sign.
pub open spec fn unsigned_part(s: Seq<char>) -> Seq<char> {
    if s.len() > 0 && s[0] == '+' {
        s.drop_first()
    } else {
        s
    }
}

/// The unsigned number that `s` writes: an optional plus sign followed by at
/// least one decimal digit and nothing else, with a value that fits `usize`.
pub open spec fn usize_of(s: Seq<char>) -> Option<usize> {
    let digits = unsigned_part(s);
    if digits.len() > 0 && all_digits(digits) && digits_value(digits) <= usize::MAX {
        Some(digits_value(digits) as usize)
    } else {
        None
    }
}

/// A longer run of digits never writes a smaller number than its beginning.
pub proof fn lemma_digits_value_prefix(s: Seq<char>, k: int)
    requires
        0 <= k <= s.len(),
    ensures
        digits_value(s.take(k)) <= digits_value(s),
    decreases s.len() - k,
{
    if k == s.len() {
        assert(s.take(k) =~= s);
    } else {
        lemma_digits_value_prefix(s, k + 1);
        assert(s.take(k + 1).drop_last() =~= s.take(k));
    }
}

/// Index of the first character at or after `from` that is no decimal
/// digit, or the end of `s`.
pub open spec fn digits_end(s: Seq<char>, from: int) -> int
    decreases s.len() - from,
{
    if 0 <= from < s.len() && is_digit(s[from]) {
        digits_end(s, from + 1)
    } else {
        from
    }
}

/// Whether `c` is the small letter `small` or its capital.
pub open spec fn is_letter(c: char, small: char) -> bool {
    c == small || ('A' <= c <= 'Z' && c as u32 + 32 == small as u32)
}

/// Whether `s` from `from` on spells `word`, in small letters or capitals.
pub open spec fn spells(s: Seq<char>, from: int, word: Seq<char>) -> bool {
    &&& s.len() - from == word.len()
    &&& forall|i: int| 0 <= i < word.len() ==> is_letter(#[trigger] s[from + i], word[i])
}

/// Whether `s` from `from` on is an exponent: the letter `e`, an optional
/// sign, and at least one digit, up to the end of `s`.
pub open spec fn is_exponent(s: Seq<char>, from: int) -> bool {
    let digits = if from + 1 < s.len() && (s[from + 1] == '+' || s[from + 1] == '-') {
        from + 2
    } else {
        from + 1
    };
    &&& 0 <= from < s.len()
    &&& is_letter(s[from], 'e')
    &&& digits < s.len()
    &&& digits_end(s, digits) == s.len()
}

/// Whether `s` from `from` on is a decimal number without a sign: digits
/// with at most one point among them, before it, behind it or both, and at
/// least one digit in all, and then an exponent or nothing.
pub open spec fn is_decimal(s: Seq<char>, from: int) -> bool {
    let whole_end = digits_end(s, from);
    let pointed = whole_end < s.len() && s[whole_end] == '.';
    let fraction = if pointed {
        whole_end + 1
    } else {
        whole_end
    };
    let fraction_end = digits_end(s, fraction);
    &&& 0 <= from
    &&& (whole_end - from) + (fraction_end - fraction) > 0
    &&& fraction_end == s.len() || is_exponent(s, fraction_end)
}

/// Whether `s` writes a number with a fraction: an optional sign, and then
/// a decimal number or one of the words `inf`, `infinity` and `nan`.
pub open spec fn is_number(s: Seq<char>) -> bool {
    let from: int = if s.len() > 0 && (s[0] == '+' || s[0] == '-') {
        1
    } else {
        0
    };
    ||| is_decimal(s, from)
    ||| spells(s, from, seq!['i', 'n', 'f'])
    ||| spells(s, from, seq!['n', 'a', 'n'])
    ||| spells(s, from, seq!['i', 'n', 'f', 'i', 'n', 'i', 't', 'y'])
}

/// Whether `c` is white space.
pub fn is_whitespace(c: char) -> (b: bool)
    ensures
        b == is_space(c),
{
    let n: u32 = c as u32;
    (0x09 <= n && n <= 0x0D) || n == 0x20 || n == 0x85 || n == 0xA0 || n == 0x1680 || (0x2000 <= n
        && n <= 0x200A) || n == 0x2028 || n == 0x2029 || n == 0x202F || n == 0x205F || n == 0x3000
}

/// The characters of `s`, in order.
pub fn chars_of(s: &str) -> (chars: Vec<char>)
    ensures
        chars@ == s@,
{
    let mut chars: Vec<char> = Vec::new();
    for c in it: s.chars()
        invariant
            chars@ == it.seq().take(it.index()),
    {
        chars.push(c);
    }
    chars
}

/// Whether `a` and `b` hold the same characters.
pub fn same_text(a: &str, b: &str) -> (same: bool)
    ensures
        same == (a@ == b@),
{
    let left = chars_of(a);
    let right = chars_of(b);
    if left.len() != right.len() {
        return false;
    }
    let mut i: usize = 0;
    while i < left.len()
        invariant
            i <= left.len(),
            left.len() == right.len(),
            left@ == a@,
            right@ == b@,
            forall|j: int| 0 <= j < i ==> left[j] == right[j],
        decreases left.len() - i,
    {
        if left[i] != right[i] {
            return false;
        }
        i += 1;
    }
    assert(a@ =~= b@);
    true
}

/// Whether `c` is the small letter `small` or its capital.
fn letter(c: char, small: char) -> (same: bool)
    requires
        'a' <= small <= 'z',
    ensures
        same == is_letter(c, small),
{
    c == small || ('A' <= c && c <= 'Z' && c as u32 + 32 == small as u32)
}

/// Whether `chars` from `from` on spells `word`, in small letters or
/// capitals.
fn spells_word(chars: &Vec<char>, from: usize, word: &[char]) -> (same: bool)
    requires
        from <= chars.len(),
        forall|i: int| 0 <= i < word@.len() ==> 'a' <= #[trigger] word@[i] <= 'z',
    ensures
        same == spells(chars@, from as int, word@),
{
    if chars.len() - from != word.len() {
        return false;
    }
    let mut i: usize = 0;
    while i < word.len()
        invariant
            i <= word.len(),
            from + word@.len() == chars.len(),
            forall|j: int| 0 <= j < word@.len() ==> 'a' <= #[trigger] word@[j] <= 'z',
            forall|j: int| 0 <= j < i ==> is_letter(#[trigger] chars@[from + j], word@[j]),
        decreases word.len() - i,
    {
        if !letter(chars[from + i], word[i]) {
            return false;
        }
        i += 1;
    }
    true
}

/// The index of the first character of `chars` at or after `from` that is
/// no decimal digit.
fn skip_digits(chars: &Vec<char>, from: usize) -> (end: usize)
    requires
        from <= chars.len(),
    ensures
        end == digits_end(chars@, from as int),
        from <= end <= chars.len(),
{
    let mut i: usize = from;
    while i < chars.len() && '0' <= chars[i] && chars[i] <= '9'
        invariant
            from <= i <= chars.len(),
            digits_end(chars@, from as int) == digits_end(chars@, i as int),
        decreases chars.len() - i,
    {
        i += 1;
    }
    i
}

/// Whether `text` writes a number with a fraction. These are the texts that
/// `str::parse` reads as a floating-point number.
pub fn is_number_text(text: &str) -> (number: bool)
    ensures
        number == is_number(text@),
{
    let chars = chars_of(text);
    let n: usize = chars.len();
    let from: usize = if n > 0 && (chars[0] == '+' || chars[0] == '-') {
        1
    } else {
        0
    };
    let inf: [char; 3] = ['i', 'n', 'f'];
    let nan: [char; 3] = ['n', 'a', 'n'];
    let infinity: [char; 8] = ['i', 'n', 'f', 'i', 'n', 'i', 't', 'y'];
    assert(inf@ =~= seq!['i', 'n', 'f']);
    assert(nan@ =~= seq!['n', 'a', 'n']);
    assert(infinity@ =~= seq!['i', 'n', 'f', 'i', 'n', 'i', 't', 'y']);
    if spells_word(&chars, from, inf.as_slice()) || spells_word(&chars, from, nan.as_slice())
        || spells_word(&chars, from, infinity.as_slice()) {
        return true;
    }
    let whole_end: usize = skip_digits(&chars, from);
    let pointed: bool = whole_end < n && chars[whole_end] == '.';
    let fraction: usize = if pointed {
        whole_end + 1
    } else {
        whole_end
    };
    let fraction_end: usize = skip_digits(&chars, fraction);
    if (whole_end - from) + (fraction_end - fraction) == 0 {
        return false;
    }
    if fraction_end == n {
        return true;
    }
    if !letter(chars[fraction_end], 'e') {
        return false;
    }
    let digits: usize = if fraction_end + 1 < n && (chars[fraction_end + 1] == '+'
        || chars[fraction_end + 1] == '-') {
        fraction_end + 2
    } else {
        fraction_end + 1
    };
    digits < n && skip_digits(&chars, digits) == n
}

/// Reads `text` as an unsigned decimal number.
pub fn parse_usize(text: &str) -> (value: Option<usize>)
    ensures
        value == usize_of(text@),
{
    let chars = chars_of(text);
    let n: usize = chars.len();
    let first: usize = if n > 0 && chars[0] == '+' { 1 } else { 0 };
    let ghost digits = unsigned_part(text@);
    assert(digits =~= text@.skip(first as int));
    if first == n {
        return None;
    }
    let mut value: usize = 0;
    let mut i: usize = first;
    while i < n
        invariant
            first <= i <= n,
            n == chars.len(),
            chars@ == text@,
            digits == text@.skip(first as int),
            digits == unsigned_part(text@),
            all_digits(digits.take(i - first)),
            value == digits_value(digits.take(i - first)),
        decreases n - i,
    {
        let c: char = chars[i];
        assert(digits[i - first] == c);
        if !('0' <= c && c <= '9') {
            assert(!is_digit(digits[i - first]));
            return None;
        }
        let d: usize = (c as u32 - '0' as u32) as usize;
        assert(digits.take(i - first + 1).drop_last() =~= digits.take(i - first));
        assert(digits.take(i - first + 1).last() == c);
        assert(digits_value(digits.take(i - first + 1)) == value * 10 + d);
        if value > (usize::MAX - d) / 10 {
            proof {
                lemma_digits_value_prefix(digits, i - first + 1);
            }
            return None;
        }
        value = value * 10 + d;
        i += 1;
    }
    assert(digits.take(n - first) =~= digits);
    Some(value)
}

/// The words of a line of text, handed out one at a time from the left.
pub struct Words<'a> {
    text: &'a str,
    chars: Vec<char>,
    position: usize,
}

impl<'a> View for Words<'a> {
    type V = Seq<Seq<char>>;

    /// The words not yet handed out.
    closed spec fn view(&self) -> Seq<Seq<char>> {
        words_from(self.chars@, self.position as int)
    }
}

impl<'a> Words<'a> {
    #[verifier::type_invariant]
    spec fn well_formed(&self) -> bool {
        &&& self.chars@ == self.text@
        &&& self.position <= self.chars.len()
    }

    /// Begins to read the words of `text`.
    pub fn new(text: &'a str) -> (reader: Words<'a>)
        ensures
            reader@ == words(text@),
    {
        Words { text, chars: chars_of(text), position: 0 }
    }

    /// Hands out the next word, if one is left.
    pub fn next(&mut self) -> (word: Option<&'a str>)
        ensures
            old(self)@.len() == 0 ==> word is None && final(self)@ == old(self)@,
            old(self)@.len() > 0 ==> word is Some && word.unwrap()@ == old(self)@[0]
                && final(self)@ == old(self)@.drop_first(),
    {
        proof {
            use_type_invariant(&*self);
        }
        let n: usize = self.chars.len();
        let mut i: usize = self.position;
        while i < n && is_whitespace(self.chars[i])
            invariant
                self.position <= i <= n,
                n == self.chars.len(),
                word_start(self.chars@, self.position as int) == word_start(self.chars@, i as int),
            decreases n - i,
        {
            i += 1;
        }
        if i == n {
            return None;
        }
        let start: usize = i;
        while i < n && !is_whitespace(self.chars[i])
            invariant
                start <= i <= n,
                n == self.chars.len(),
                word_end(self.chars@, start as int) == word_end(self.chars@, i as int),
            decreases n - i,
        {
            i += 1;
        }
        let text: &'a str = self.text;
        let word: &'a str = text.substring_char(start, i);
        proof {
            assert(old(self)@ =~= seq![self.chars@.subrange(start as int, i as int)] + words_from(
                self.chars@,
                i as int,
            ));
            assert(old(self)@.drop_first() =~= words_from(self.chars@, i as int));
        }
        self.position = i;
        Some(word)
    }
}

/// The pieces of a text between separators, handed out one at a time from
/// the left.
pub struct Fields<'a> {
    text: &'a str,
    chars: Vec<char>,
    separator: char,
    position: usize,
    finished: bool,
}

impl<'a> View for Fields<'a> {
    type V = Seq<Seq<char>>;

    /// The pieces not yet handed out.
    closed spec fn view(&self) -> Seq<Seq<char>> {
        if self.finished {
            Seq::empty()
        } else {
            fields_from(self.chars@, self.separator, self.position as int)
        }
    }
}

impl<'a> Fields<'a> {
    #[verifier::type_invariant]
    spec fn well_formed(&self) -> bool {
        &&& self.chars@ == self.text@
        &&& self.position <= self.chars.len()
    }

    /// Begins to read the pieces of `text` between occurrences of
    /// `separator`.
    pub fn new(text: &'a str, separator: char) -> (reader: Fields<'a>)
        ensures
            reader@ == fields(text@, separator),
    {
        Fields { text, chars: chars_of(text), separator, position: 0, finished: false }
    }

    /// Hands out the next piece, if one is left.
    pub fn next(&mut self) -> (field: Option<&'a str>)
        ensures
            old(self)@.len() == 0 ==> field is None && final(self)@ == old(self)@,
            old(self)@.len() > 0 ==> field is Some && field.unwrap()@ == old(self)@[0]
                && final(self)@ == old(self)@.drop_first(),
    {
        proof {
            use_type_invariant(&*self);
        }
        if self.finished {
            return None;
        }
        let n: usize = self.chars.len();
        let start: usize = self.position;
        let mut i: usize = start;
        while i < n && self.chars[i] != self.separator
            invariant
                start <= i <= n,
                n == self.chars.len(),
                field_end(self.chars@, self.separator, start as int) == field_end(
                    self.chars@,
                    self.separator,
                    i as int,
                ),
            decreases n - i,
        {
            i += 1;
        }
        let text: &'a str = self.text;
        let field: &'a str = text.substring_char(start, i);
        if i == n {
            proof {
                assert(old(self)@ =~= seq![self.chars@.subrange(start as int, n as int)]);
                assert(old(self)@.drop_first() =~= Seq::<Seq<char>>::empty());
            }
            self.finished = true;
        } else {
            proof {
                assert(old(self)@ =~= seq![self.chars@.subrange(start as int, i as int)]
                    + fields_from(self.chars@, self.separator, i + 1));
                assert(old(self)@.drop_first() =~= fields_from(
                    self.chars@,
                    self.separator,
                    i + 1,
                ));
            }
            self.position = i + 1;
        }
        Some(field)
    }
}

} // verus!
