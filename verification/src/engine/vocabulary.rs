//! Reading a vocabulary: the line-oriented `token id` text format and the
//! vocabulary of a tokenizer document.

use vstd::prelude::*;
use crate::engine::onnx_stt::Vocabulary;
use crate::text::{chars_of, slice_chars, string_of, trim_bounds, trimmed};

verus! {

/// Why no vocabulary could be read.
#[derive(Debug, Clone, Copy, PartialEq, Eq, Structural)]
pub enum VocabError {
    /// No line, or no entry, gave a token.
    NoEntries,
    /// A token id is too large for a table indexed by id.
    IdTooLarge,
    /// The document is not a well-formed tokenizer document.
    Malformed,
    /// The model directory holds neither a vocabulary text nor a tokenizer
    /// document.
    NoVocabularyFile,
}

/// `s` split at each line feed: one more piece than there are line feeds.
pub open spec fn split_lines(s: Seq<char>) -> Seq<Seq<char>>
    decreases s.len(),
{
    if s.len() == 0 {
        seq![Seq::empty()]
    } else {
        let front = split_lines(s.drop_last());
        if s.last() == '\n' {
            front.push(Seq::empty())
        } else {
            front.drop_last().push(front.last().push(s.last()))
        }
    }
}

/// Index of the last `c` in `s`, or -1.
pub open spec fn last_index_of(s: Seq<char>, c: char) -> int
    decreases s.len(),
{
    if s.len() == 0 {
        -1
    } else if s.last() == c {
        s.len() - 1
    } else {
        last_index_of(s.drop_last(), c)
    }
}

/// Every character is a decimal digit.
pub open spec fn all_digits(s: Seq<char>) -> bool {
    forall|i: int| 0 <= i < s.len() ==> '0' <= #[trigger] s[i] <= '9'
}

/// The number that decimal digits write.
pub open spec fn digits_value(s: Seq<char>) -> int
    decreases s.len(),
{
    if s.len() == 0 {
        0
    } else {
        digits_value(s.drop_last()) * 10 + (s.last() as int - '0' as int)
    }
}

/// The digits of a number written with an optional plus sign before it.
pub open spec fn unsigned_digits(s: Seq<char>) -> Seq<char> {
    if s.len() > 0 && s[0] == '+' {
        s.drop_first()
    } else {
        s
    }
}

/// The number that `s` writes: at least one decimal digit, a plus sign
/// before them allowed, and a value that fits a `usize`.
pub open spec fn decimal_value(s: Seq<char>) -> Option<int> {
    let digits = unsigned_digits(s);
    if digits.len() == 0 || !all_digits(digits) || digits_value(digits) > usize::MAX {
        None
    } else {
        Some(digits_value(digits))
    }
}

/// The entry that a line gives: the line is trimmed, and what follows its
/// last space must be a number, the token's id; what stands before that
/// space is the token. A line that is blank, has no space, or ends in no
/// number gives no entry.
pub open spec fn line_entry(line: Seq<char>) -> Option<(Seq<char>, int)> {
    let t = trimmed(line);
    let space = last_index_of(t, ' ');
    if space < 0 {
        None
    } else {
        match decimal_value(t.subrange(space + 1, t.len() as int)) {
            Some(id) => Some((t.subrange(0, space), id)),
            None => None,
        }
    }
}

/// The entries of the lines, in order.
pub open spec fn entries_of(lines: Seq<Seq<char>>) -> Seq<(Seq<char>, int)>
    decreases lines.len(),
{
    if lines.len() == 0 {
        Seq::empty()
    } else {
        match line_entry(lines.last()) {
            Some(entry) => entries_of(lines.drop_last()).push(entry),
            None => entries_of(lines.drop_last()),
        }
    }
}

/// The greatest id among the entries, -1 for none.
pub open spec fn max_id(entries: Seq<(Seq<char>, int)>) -> int
    decreases entries.len(),
{
    if entries.len() == 0 {
        -1
    } else if entries.last().1 > max_id(entries.drop_last()) {
        entries.last().1
    } else {
        max_id(entries.drop_last())
    }
}

/// The token of the last entry with this id, empty where there is none.
pub open spec fn token_at(entries: Seq<(Seq<char>, int)>, id: int) -> Seq<char>
    decreases entries.len(),
{
    if entries.len() == 0 {
        Seq::empty()
    } else if entries.last().1 == id {
        entries.last().0
    } else {
        token_at(entries.drop_last(), id)
    }
}

/// The table of tokens that entries give: one place for each id up to the
/// greatest.
pub open spec fn token_table(entries: Seq<(Seq<char>, int)>) -> Seq<Seq<char>> {
    Seq::new((max_id(entries) + 1) as nat, |id: int| token_at(entries, id))
}

/// The value of digits does not shrink when more digits follow.
proof fn lemma_digits_grow(s: Seq<char>, n: int)
    requires
        all_digits(s),
        0 <= n <= s.len(),
    ensures
        0 <= digits_value(s.take(n)) <= digits_value(s),
    decreases s.len() - n,
{
    if n == s.len() {
        assert(s.take(n) =~= s);
        lemma_digits_nonnegative(s);
    } else {
        lemma_digits_grow(s, n + 1);
        assert(s.take(n + 1).drop_last() =~= s.take(n));
        lemma_digits_nonnegative(s.take(n));
        assert('0' <= s[n] <= '9');
    }
}

/// Digits write no negative number.
proof fn lemma_digits_nonnegative(s: Seq<char>)
    requires
        all_digits(s),
    ensures
        0 <= digits_value(s),
    decreases s.len(),
{
    if s.len() > 0 {
        lemma_digits_nonnegative(s.drop_last());
        assert('0' <= s[s.len() - 1] <= '9');
    }
}

/// Reads the number that `chars[start .. end]` writes.
pub fn parse_decimal(chars: &[char], start: usize, end: usize) -> (value: Option<usize>)
    requires
        start <= end <= chars@.len(),
    ensures
        match value {
            Some(v) => decimal_value(chars@.subrange(start as int, end as int)) == Some(v as int),
            None => decimal_value(chars@.subrange(start as int, end as int)) is None,
        },
{
    let ghost text = chars@.subrange(start as int, end as int);
    let first: usize = if start < end && chars[start] == '+' {
        start + 1
    } else {
        start
    };
    let ghost digits = unsigned_digits(text);
    assert(digits =~= chars@.subrange(first as int, end as int));
    if first == end {
        return None;
    }
    let mut value: usize = 0;
    let mut i: usize = first;
    while i < end
        invariant
            first <= i <= end <= chars@.len(),
            start <= end,
            first < end,
            digits == chars@.subrange(first as int, end as int),
            digits == unsigned_digits(chars@.subrange(start as int, end as int)),
            all_digits(digits.take(i - first)),
            value == digits_value(digits.take(i - first)),
        decreases end - i,
    {
        let c: char = chars[i];
        assert(c == digits[i - first]);
        if c < '0' || c > '9' {
            assert(!all_digits(digits)) by {
                if all_digits(digits) {
                    assert('0' <= digits[i - first] <= '9');
                }
            }
            return None;
        }
        let d: usize = (c as u32 - '0' as u32) as usize;
        proof {
            assert(digits.take(i - first + 1).drop_last() =~= digits.take(i - first));
            assert(digits.take(i - first + 1).last() == c);
            assert(digits_value(digits.take(i - first + 1)) == value * 10 + d);
            assert forall|k: int| 0 <= k < i - first + 1 implies '0' <= #[trigger] digits.take(
                i - first + 1,
            )[k] <= '9' by {
                if k < i - first {
                    assert(digits.take(i - first)[k] == digits[k]);
                }
            }
        }
        let next: Option<usize> = match value.checked_mul(10) {
            Some(scaled) => scaled.checked_add(d),
            None => None,
        };
        match next {
            Some(v) => {
                value = v;
            },
            None => {
                proof {
                    if all_digits(digits) {
                        lemma_digits_grow(digits, i - first + 1);
                    }
                }
                return None;
            },
        }
        i = i + 1;
    }
    assert(digits.take(i - first) =~= digits);
    Some(value)
}

/// Index of the last `c` in `chars[start .. end]`, counted from `start`.
pub fn find_last(chars: &[char], start: usize, end: usize, c: char) -> (found: Option<usize>)
    requires
        start <= end <= chars@.len(),
    ensures
        match found {
            Some(i) => i < end - start && i == last_index_of(
                chars@.subrange(start as int, end as int),
                c,
            ),
            None => last_index_of(chars@.subrange(start as int, end as int), c) == -1,
        },
{
    let ghost text = chars@.subrange(start as int, end as int);
    let mut i: usize = end;
    assert(text.take(end - start) =~= text);
    while i > start
        invariant
            start <= i <= end <= chars@.len(),
            text == chars@.subrange(start as int, end as int),
            last_index_of(text, c) == last_index_of(text.take(i - start), c),
        decreases i,
    {
        assert(text.take(i - start).last() == chars@[i - 1]);
        if chars[i - 1] == c {
            return Some(i - 1 - start);
        }
        assert(text.take(i - start).drop_last() =~= text.take(i - start - 1));
        i = i - 1;
    }
    assert(text.take(0).len() == 0);
    None
}

/// One entry of a vocabulary in the making.
pub struct Entry {
    pub token: Vec<char>,
    pub id: usize,
}

/// The entries as pairs of token and id.
pub open spec fn entry_views(entries: Seq<Entry>) -> Seq<(Seq<char>, int)> {
    Seq::new(entries.len(), |i: int| (entries[i].token@, entries[i].id as int))
}

/// Reads the entry that one line gives.
pub fn parse_line(line: &[char]) -> (entry: Option<Entry>)
    ensures
        match line_entry(line@) {
            Some(e) => entry matches Some(got) && got.token@ == e.0 && got.id == e.1,
            None => entry is None,
        },
{
    let bounds: (usize, usize) = trim_bounds(line);
    let ghost t = trimmed(line@);
    assert(t == line@.subrange(bounds.0 as int, bounds.1 as int));
    match find_last(line, bounds.0, bounds.1, ' ') {
        None => None,
        Some(space) => {
            assert(t.subrange(space + 1, t.len() as int) =~= line@.subrange(
                bounds.0 + space + 1,
                bounds.1 as int,
            ));
            assert(t.subrange(0, space as int) =~= line@.subrange(
                bounds.0 as int,
                bounds.0 + space,
            ));
            match parse_decimal(line, bounds.0 + space + 1, bounds.1) {
                None => None,
                Some(id) => {
                    let token: Vec<char> = slice_chars(line, bounds.0, bounds.0 + space);
                    Some(Entry { token, id })
                },
            }
        },
    }
}


/// The entries that the lines of a vocabulary text give, in order.
pub open spec fn vocab_entries(data: Seq<char>) -> Seq<(Seq<char>, int)> {
    entries_of(split_lines(data))
}

/// Reads the entries of a vocabulary text.
pub fn read_entries(chars: &[char]) -> (entries: Vec<Entry>)
    ensures
        entry_views(entries@) == vocab_entries(chars@),
{
    let len: usize = chars.len();
    let mut entries: Vec<Entry> = Vec::new();
    let mut line_start: usize = 0;
    let mut i: usize = 0;
    proof {
        assert(chars@.take(0) =~= Seq::<char>::empty());
        assert(split_lines(chars@.take(0)) =~= seq![Seq::<char>::empty()]);
        assert(split_lines(chars@.take(0)).drop_last() =~= Seq::<Seq<char>>::empty());
        assert(entry_views(entries@) =~= entries_of(split_lines(chars@.take(0)).drop_last()));
        assert(chars@.subrange(0, 0) =~= Seq::<char>::empty());
    }
    while i < len
        invariant
            len == chars@.len(),
            line_start <= i <= len,
            split_lines(chars@.take(i as int)).len() >= 1,
            entry_views(entries@) == entries_of(split_lines(chars@.take(i as int)).drop_last()),
            split_lines(chars@.take(i as int)).last() == chars@.subrange(
                line_start as int,
                i as int,
            ),
        decreases len - i,
    {
        let ghost lines = split_lines(chars@.take(i as int));
        let ghost next = split_lines(chars@.take(i + 1));
        proof {
            assert(chars@.take(i + 1).drop_last() =~= chars@.take(i as int));
            assert(chars@.take(i + 1).last() == chars@[i as int]);
        }
        if chars[i] == '\n' {
            let line: Vec<char> = slice_chars(chars, line_start, i);
            let ghost before = entry_views(entries@);
            match parse_line(line.as_slice()) {
                Some(entry) => {
                    entries.push(entry);
                    assert(entry_views(entries@) =~= before.push(line_entry(line@)->0));
                },
                None => {},
            }
            proof {
                assert(next == lines.push(Seq::<char>::empty()));
                assert(next.drop_last() =~= lines);
                assert(chars@.subrange(i + 1, i + 1) =~= Seq::<char>::empty());
            }
            line_start = i + 1;
        } else {
            proof {
                assert(next == lines.drop_last().push(lines.last().push(chars@[i as int])));
                assert(next.drop_last() =~= lines.drop_last());
                assert(chars@.subrange(line_start as int, i + 1) =~= lines.last().push(
                    chars@[i as int],
                ));
            }
        }
        i = i + 1;
    }
    let line: Vec<char> = slice_chars(chars, line_start, len);
    let ghost before = entry_views(entries@);
    match parse_line(line.as_slice()) {
        Some(entry) => {
            entries.push(entry);
            assert(entry_views(entries@) =~= before.push(line_entry(line@)->0));
        },
        None => {},
    }
    assert(chars@.take(len as int) =~= chars@);
    entries
}

/// The greatest id is the id of some entry and no entry's id is greater.
pub proof fn lemma_max_id(entries: Seq<(Seq<char>, int)>)
    requires
        forall|k: int| 0 <= k < entries.len() ==> (#[trigger] entries[k]).1 >= 0,
    ensures
        forall|k: int| 0 <= k < entries.len() ==> (#[trigger] entries[k]).1 <= max_id(entries),
        entries.len() == 0 ==> max_id(entries) == -1,
        entries.len() > 0 ==> max_id(entries) >= 0,
    decreases entries.len(),
{
    if entries.len() > 0 {
        let front = entries.drop_last();
        assert forall|k: int| 0 <= k < front.len() implies (#[trigger] front[k]).1 >= 0 by {
            assert(front[k] == entries[k]);
        }
        lemma_max_id(front);
        assert forall|k: int| 0 <= k < entries.len() implies (#[trigger] entries[k]).1 <= max_id(
            entries,
        ) by {
            if k < front.len() {
                assert(front[k] == entries[k]);
            }
        }
    }
}

/// Builds the vocabulary that entries give: a table with one token for each
/// id up to the greatest, the token of the last entry with that id and an
/// empty one where there is none. The last token is the blank.
pub fn vocabulary_of(entries: &Vec<Entry>) -> (vocab: Result<Vocabulary, VocabError>)
    ensures
        match vocab {
            Ok(v) => {
                &&& entries@.len() > 0
                &&& max_id(entry_views(entries@)) < usize::MAX
                &&& v.texts() == token_table(entry_views(entries@))
                &&& v.blank_id == max_id(entry_views(entries@))
                &&& v.vocab_size == max_id(entry_views(entries@)) + 1
                &&& v.wf()
            },
            Err(e) => if entries@.len() == 0 {
                e == VocabError::NoEntries
            } else {
                e == VocabError::IdTooLarge && max_id(entry_views(entries@)) >= usize::MAX
            },
        },
{
    let ghost views = entry_views(entries@);
    let count: usize = entries.len();
    if count == 0 {
        return Err(VocabError::NoEntries);
    }
    let mut top: usize = 0;
    let mut k: usize = 0;
    proof {
        assert(views.take(0) =~= Seq::<(Seq<char>, int)>::empty());
    }
    while k < count
        invariant
            count == entries@.len(),
            views == entry_views(entries@),
            k <= count,
            k == 0 ==> top == 0,
            k > 0 ==> top == max_id(views.take(k as int)),
            max_id(views.take(k as int)) >= -1,
        decreases count - k,
    {
        proof {
            assert(views.take(k + 1).drop_last() =~= views.take(k as int));
            assert(views.take(k + 1).last() == views[k as int]);
        }
        if k == 0 || entries[k].id > top {
            top = entries[k].id;
        }
        k = k + 1;
    }
    proof {
        assert(views.take(count as int) =~= views);
        lemma_max_id(views);
        assert forall|j: int| 0 <= j < count implies (#[trigger] entries@[j]).id <= top by {
            assert(views[j].1 == entries@[j].id);
        }
    }
    if top == usize::MAX {
        return Err(VocabError::IdTooLarge);
    }
    let size: usize = top + 1;
    let mut table: Vec<Vec<char>> = Vec::new();
    let mut n: usize = 0;
    while n < size
        invariant
            n <= size,
            table@.len() == n,
            forall|i: int| 0 <= i < n ==> (#[trigger] table@[i])@ == Seq::<char>::empty(),
        decreases size - n,
    {
        table.push(Vec::new());
        n = n + 1;
    }
    let mut k: usize = 0;
    while k < count
        invariant
            count == entries@.len(),
            views == entry_views(entries@),
            k <= count,
            table@.len() == size,
            size == top + 1,
            forall|j: int| 0 <= j < count ==> (#[trigger] entries@[j]).id <= top,
            forall|i: int|
                0 <= i < size ==> (#[trigger] table@[i])@ == token_at(views.take(k as int), i),
        decreases count - k,
    {
        proof {
            assert(views.take(k + 1).drop_last() =~= views.take(k as int));
            assert(views.take(k + 1).last() == views[k as int]);
        }
        let id: usize = entries[k].id;
        let token: Vec<char> = slice_chars(entries[k].token.as_slice(), 0, entries[k].token.len());
        assert(token@ =~= entries@[k as int].token@);
        table.set(id, token);
        k = k + 1;
    }
    proof {
        assert(views.take(count as int) =~= views);
    }
    let mut tokens: Vec<String> = Vec::new();
    let mut n: usize = 0;
    while n < size
        invariant
            n <= size,
            table@.len() == size,
            tokens@.len() == n,
            forall|i: int| 0 <= i < n ==> (#[trigger] tokens@[i])@ == table@[i]@,
        decreases size - n,
    {
        tokens.push(string_of(table[n].as_slice()));
        n = n + 1;
    }
    let vocab = Vocabulary { tokens, blank_id: top, vocab_size: size };
    assert(vocab.texts() =~= token_table(views));
    Ok(vocab)
}

/// Reads a vocabulary from text with one `token id` pair per line.
///
/// Lines that give no entry are passed over. The vocabulary has a place
/// for every id up to the greatest one named, and its last token is the
/// blank. A text without any entry, and one whose greatest id leaves no
/// room for a table, give no vocabulary.
pub fn load_vocab_txt(data: &str) -> (vocab: Result<Vocabulary, VocabError>)
    ensures
        match vocab {
            Ok(v) => {
                &&& vocab_entries(data@).len() > 0
                &&& max_id(vocab_entries(data@)) < usize::MAX
                &&& v.texts() == token_table(vocab_entries(data@))
                &&& v.blank_id == max_id(vocab_entries(data@))
                &&& v.vocab_size == max_id(vocab_entries(data@)) + 1
                &&& v.wf()
            },
            Err(e) => if vocab_entries(data@).len() == 0 {
                e == VocabError::NoEntries
            } else {
                e == VocabError::IdTooLarge && max_id(vocab_entries(data@)) >= usize::MAX
            },
        },
{
    let chars: Vec<char> = chars_of(data);
    let entries: Vec<Entry> = read_entries(chars.as_slice());
    vocabulary_of(&entries)
}


/// A JSON document, as far as a vocabulary is read from it.
#[derive(Debug)]
pub enum Json {
    Null,
    Bool(bool),
    /// A number: its value where it is a whole number from 0 to 2^64 - 1.
    Number(Option<u64>),
    Text(String),
    Array(Vec<Json>),
    /// The members of an object, in the order in which the parser holds them.
    Object(Vec<(String, Json)>),
}

/// `serde_json::Value`, carried from the parser to the copy and not looked into.
#[verifier::external_type_specification]
#[verifier::external_body]
pub struct ExJsonValue(serde_json::Value);

/// `serde_json::Error`, of which only its presence is read.
#[verifier::external_type_specification]
#[verifier::external_body]
pub struct ExJsonError(serde_json::Error);

/// What a parsed value holds.
pub uninterp spec fn json_model(value: serde_json::Value) -> Json;

/// The document that `text` is parsed to, `None` where it is not well formed.
pub uninterp spec fn json_document(text: Seq<char>) -> Option<Json>;

/// Calls `serde_json::from_str` for a `serde_json::Value`. Trusted: whether
/// a text parses, and to what, depends on the text alone.
#[verifier::external_body]
fn parse_value(text: &str) -> (parsed: Result<serde_json::Value, serde_json::Error>)
    ensures
        match parsed {
            Ok(value) => json_document(text@) == Some(json_model(value)),
            Err(_) => json_document(text@) is None,
        },
{
    serde_json::from_str(text)
}

/// Copies a `serde_json::Value` into a `Json`, variant by variant; a number
/// is read with `serde_json::Number::as_u64` and an object's members are
/// taken in the order of `serde_json::Map::iter`. Trusted: the copy is
/// what the value holds.
#[verifier::external_body]
fn json_of(value: &serde_json::Value) -> (json: Json)
    ensures
        json == json_model(*value),
{
    match value {
        serde_json::Value::Null => Json::Null,
        serde_json::Value::Bool(b) => Json::Bool(*b),
        serde_json::Value::Number(n) => Json::Number(n.as_u64()),
        serde_json::Value::String(s) => Json::Text(s.clone()),
        serde_json::Value::Array(items) => Json::Array(items.iter().map(json_of).collect()),
        serde_json::Value::Object(members) => Json::Object(
            members.iter().map(|(k, v)| (k.clone(), json_of(v))).collect(),
        ),
    }
}

/// Parses a JSON document.
pub fn parse_json(text: &str) -> (document: Result<Json, VocabError>)
    ensures
        match document {
            Ok(json) => json_document(text@) == Some(json),
            Err(e) => e == VocabError::Malformed && json_document(text@) is None,
        },
{
    match parse_value(text) {
        Ok(value) => Ok(json_of(&value)),
        Err(_) => Err(VocabError::Malformed),
    }
}

/// Index of the first member named `key`, or the number of members.
pub open spec fn member_index(members: Seq<(String, Json)>, key: Seq<char>) -> int
    decreases members.len(),
{
    if members.len() == 0 {
        0
    } else if members[0].0@ == key {
        0
    } else {
        1 + member_index(members.drop_first(), key)
    }
}

/// The member of an object that is named `key`.
pub open spec fn member(json: Json, key: Seq<char>) -> Option<Json> {
    match json {
        Json::Object(members) => if member_index(members@, key) < members@.len() {
            Some(members@[member_index(members@, key)].1)
        } else {
            None
        },
        _ => None,
    }
}

/// The token that an entry of a vocabulary array gives: the entry itself
/// where it is text, its first item where it is an array that starts with
/// text.
pub open spec fn entry_token(entry: Json) -> Option<String> {
    match entry {
        Json::Text(token) => Some(token),
        Json::Array(items) => if items@.len() > 0 {
            match items@[0] {
                Json::Text(token) => Some(token),
                _ => None,
            }
        } else {
            None
        },
        _ => None,
    }
}

/// The tokens that the entries of a vocabulary array give, in order.
pub open spec fn array_tokens(entries: Seq<Json>) -> Seq<Seq<char>>
    decreases entries.len(),
{
    if entries.len() == 0 {
        Seq::empty()
    } else {
        match entry_token(entries.last()) {
            Some(token) => array_tokens(entries.drop_last()).push(token@),
            None => array_tokens(entries.drop_last()),
        }
    }
}

/// The members of a vocabulary object that map a token to an id, in order.
pub open spec fn id_pairs(members: Seq<(String, Json)>) -> Seq<(Seq<char>, u64)>
    decreases members.len(),
{
    if members.len() == 0 {
        Seq::empty()
    } else {
        match members.last().1 {
            Json::Number(Some(id)) => id_pairs(members.drop_last()).push((members.last().0@, id)),
            _ => id_pairs(members.drop_last()),
        }
    }
}

/// `pair` put into pairs ordered by id: behind every pair whose id is not
/// greater.
pub open spec fn inserted(sorted: Seq<(Seq<char>, u64)>, pair: (Seq<char>, u64)) -> Seq<
    (Seq<char>, u64),
>
    decreases sorted.len(),
{
    if sorted.len() == 0 || sorted.last().1 <= pair.1 {
        sorted.push(pair)
    } else {
        inserted(sorted.drop_last(), pair).push(sorted.last())
    }
}

/// The pairs ordered by id; pairs with one id keep their order.
pub open spec fn ordered_by_id(pairs: Seq<(Seq<char>, u64)>) -> Seq<(Seq<char>, u64)>
    decreases pairs.len(),
{
    if pairs.len() == 0 {
        Seq::empty()
    } else {
        inserted(ordered_by_id(pairs.drop_last()), pairs.last())
    }
}

/// The tokens of pairs, in order.
pub open spec fn pair_tokens(pairs: Seq<(Seq<char>, u64)>) -> Seq<Seq<char>> {
    Seq::new(pairs.len(), |i: int| pairs[i].0)
}

/// The tokens of a vocabulary object, ordered by id.
pub open spec fn object_tokens(vocab: Json) -> Seq<Seq<char>> {
    match vocab {
        Json::Object(members) => pair_tokens(ordered_by_id(id_pairs(members@))),
        _ => Seq::empty(),
    }
}

/// The tokens of a vocabulary that is an array or an object.
pub open spec fn vocab_tokens(vocab: Json) -> Seq<Seq<char>> {
    match vocab {
        Json::Array(entries) => array_tokens(entries@),
        _ => object_tokens(vocab),
    }
}

/// The tokens of a tokenizer document: those of the vocabulary under
/// `model`, and where they are none, those of a vocabulary object at the
/// top.
pub open spec fn tokenizer_tokens(document: Json) -> Seq<Seq<char>> {
    let nested = match member(document, "model"@) {
        Some(model) => match member(model, "vocab"@) {
            Some(vocab) => vocab_tokens(vocab),
            None => Seq::empty(),
        },
        None => Seq::empty(),
    };
    if nested.len() > 0 {
        nested
    } else {
        match member(document, "vocab"@) {
            Some(vocab) => object_tokens(vocab),
            None => Seq::empty(),
        }
    }
}

/// Putting a pair in at the place where the ids before it are not greater
/// and the ids from there on are greater is `inserted`.
proof fn lemma_inserted_at(sorted: Seq<(Seq<char>, u64)>, pair: (Seq<char>, u64), at: int)
    requires
        0 <= at <= sorted.len(),
        at > 0 ==> sorted[at - 1].1 <= pair.1,
        forall|k: int| at <= k < sorted.len() ==> (#[trigger] sorted[k]).1 > pair.1,
    ensures
        inserted(sorted, pair) == sorted.insert(at, pair),
    decreases sorted.len() - at,
{
    if at == sorted.len() {
        assert(sorted.insert(at, pair) =~= sorted.push(pair));
    } else {
        let front = sorted.drop_last();
        assert(sorted.last() == sorted[sorted.len() - 1]);
        assert forall|k: int| at <= k < front.len() implies (#[trigger] front[k]).1 > pair.1 by {
            assert(front[k] == sorted[k]);
        }
        lemma_inserted_at(front, pair, at);
        assert(front.insert(at, pair).push(sorted.last()) =~= sorted.insert(at, pair));
    }
}

/// The member of an object that is named `key`.
pub fn get_member<'a>(json: &'a Json, key: &str) -> (found: Option<&'a Json>)
    ensures
        match found {
            Some(value) => member(*json, key@) == Some(*value),
            None => member(*json, key@) is None,
        },
{
    match json {
        Json::Object(members) => {
            let mut i: usize = 0;
            assert(members@.skip(0) =~= members@);
            while i < members.len()
                invariant
                    *json == Json::Object(*members),
                    i <= members@.len(),
                    member_index(members@, key@) == i + member_index(members@.skip(i as int), key@),
                decreases members@.len() - i,
            {
                assert(members@.skip(i as int)[0] == members@[i as int]);
                assert(members@.skip(i as int).drop_first() =~= members@.skip(i + 1));
                if crate::text::same_text(members[i].0.as_str(), key) {
                    return Some(&members[i].1);
                }
                i = i + 1;
            }
            assert(members@.skip(i as int).len() == 0);
            None
        },
        _ => None,
    }
}

/// The tokens of a vocabulary array.
pub fn read_array_tokens(entries: &Vec<Json>) -> (tokens: Vec<String>)
    ensures
        tokens@.len() == array_tokens(entries@).len(),
        forall|i: int| 0 <= i < tokens@.len() ==> (#[trigger] tokens@[i])@ == array_tokens(entries@)[i],
{
    let mut tokens: Vec<String> = Vec::new();
    let mut k: usize = 0;
    assert(entries@.take(0) =~= Seq::<Json>::empty());
    while k < entries.len()
        invariant
            k <= entries@.len(),
            tokens@.len() == array_tokens(entries@.take(k as int)).len(),
            forall|i: int|
                0 <= i < tokens@.len() ==> (#[trigger] tokens@[i])@ == array_tokens(
                    entries@.take(k as int),
                )[i],
        decreases entries@.len() - k,
    {
        assert(entries@.take(k + 1).drop_last() =~= entries@.take(k as int));
        assert(entries@.take(k + 1).last() == entries@[k as int]);
        match &entries[k] {
            Json::Text(token) => {
                tokens.push(token.clone());
            },
            Json::Array(items) => {
                if items.len() > 0 {
                    match &items[0] {
                        Json::Text(token) => {
                            tokens.push(token.clone());
                        },
                        _ => {},
                    }
                }
            },
            _ => {},
        }
        k = k + 1;
    }
    assert(entries@.take(k as int) =~= entries@);
    tokens
}

/// A token with its id, while a vocabulary object is put in order.
pub struct IdPair {
    pub token: String,
    pub id: u64,
}

/// The pairs as token text and id.
pub open spec fn pair_views(pairs: Seq<IdPair>) -> Seq<(Seq<char>, u64)> {
    Seq::new(pairs.len(), |i: int| (pairs[i].token@, pairs[i].id))
}

/// The tokens of a vocabulary object, ordered by id.
pub fn read_object_tokens(members: &Vec<(String, Json)>) -> (tokens: Vec<String>)
    ensures
        tokens@.len() == ordered_by_id(id_pairs(members@)).len(),
        forall|i: int|
            0 <= i < tokens@.len() ==> (#[trigger] tokens@[i])@ == ordered_by_id(
                id_pairs(members@),
            )[i].0,
{
    let mut sorted: Vec<IdPair> = Vec::new();
    let mut k: usize = 0;
    proof {
        assert(members@.take(0) =~= Seq::<(String, Json)>::empty());
        assert(pair_views(sorted@) =~= ordered_by_id(id_pairs(members@.take(0))));
    }
    while k < members.len()
        invariant
            k <= members@.len(),
            pair_views(sorted@) == ordered_by_id(id_pairs(members@.take(k as int))),
        decreases members@.len() - k,
    {
        proof {
            assert(members@.take(k + 1).drop_last() =~= members@.take(k as int));
            assert(members@.take(k + 1).last() == members@[k as int]);
        }
        match &members[k].1 {
            Json::Number(Some(id)) => {
                let id: u64 = *id;
                let mut at: usize = sorted.len();
                while at > 0 && sorted[at - 1].id > id
                    invariant
                        at <= sorted@.len(),
                        forall|j: int| at <= j < sorted@.len() ==> (#[trigger] sorted@[j]).id > id,
                    decreases at,
                {
                    at = at - 1;
                }
                let ghost before = pair_views(sorted@);
                let token: String = members[k].0.clone();
                proof {
                    assert forall|j: int| at <= j < before.len() implies (#[trigger] before[j]).1
                        > id by {
                        assert(before[j].1 == sorted@[j].id);
                    }
                    if at > 0 {
                        assert(before[at - 1].1 == sorted@[at - 1].id);
                    }
                    lemma_inserted_at(before, (token@, id), at as int);
                    let earlier = id_pairs(members@.take(k as int));
                    let pair = (members@[k as int].0@, id);
                    assert(id_pairs(members@.take(k + 1)) == earlier.push(pair));
                    assert(earlier.push(pair).drop_last() =~= earlier);
                    assert(earlier.push(pair).last() == pair);
                    assert(ordered_by_id(earlier.push(pair)) == inserted(
                        ordered_by_id(earlier),
                        pair,
                    ));
                }
                sorted.insert(at, IdPair { token, id });
                assert(pair_views(sorted@) =~= before.insert(at as int, (token@, id)));
            },
            _ => {},
        }
        k = k + 1;
    }
    assert(members@.take(k as int) =~= members@);
    let mut tokens: Vec<String> = Vec::new();
    let mut n: usize = 0;
    while n < sorted.len()
        invariant
            n <= sorted@.len(),
            tokens@.len() == n,
            forall|i: int| 0 <= i < n ==> (#[trigger] tokens@[i])@ == sorted@[i].token@,
        decreases sorted@.len() - n,
    {
        tokens.push(sorted[n].token.clone());
        n = n + 1;
    }
    assert forall|i: int| 0 <= i < tokens@.len() implies (#[trigger] tokens@[i])@ == ordered_by_id(
        id_pairs(members@),
    )[i].0 by {
        assert(pair_views(sorted@)[i].0 == sorted@[i].token@);
    }
    tokens
}

/// The texts of tokens.
pub open spec fn texts_of(tokens: Seq<String>) -> Seq<Seq<char>> {
    Seq::new(tokens.len(), |i: int| tokens[i]@)
}

/// The vocabulary of a tokenizer document.
///
/// The vocabulary is looked for under `model`, where it may be an array of
/// tokens, or of arrays that start with a token, or an object that maps
/// tokens to ids; where that gives no token, a vocabulary object at the top
/// of the document is read. The last token is the blank. A document
/// without any token gives no vocabulary.
pub fn tokenizer_vocabulary(document: &Json) -> (vocab: Result<Vocabulary, VocabError>)
    ensures
        match vocab {
            Ok(v) => {
                &&& tokenizer_tokens(*document).len() > 0
                &&& v.texts() == tokenizer_tokens(*document)
                &&& v.blank_id == v.tokens@.len() - 1
                &&& v.wf()
            },
            Err(e) => e == VocabError::NoEntries && tokenizer_tokens(*document).len() == 0,
        },
{
    let mut tokens: Vec<String> = Vec::new();
    assert(texts_of(tokens@) =~= Seq::<Seq<char>>::empty());
    match get_member(document, "model") {
        Some(model) => {
            match get_member(model, "vocab") {
                Some(vocab) => {
                    match vocab {
                        Json::Array(entries) => {
                            tokens = read_array_tokens(entries);
                            assert(texts_of(tokens@) =~= array_tokens(entries@));
                        },
                        Json::Object(members) => {
                            tokens = read_object_tokens(members);
                            assert(texts_of(tokens@) =~= pair_tokens(
                                ordered_by_id(id_pairs(members@)),
                            ));
                        },
                        _ => {},
                    }
                },
                None => {},
            }
        },
        None => {},
    }
    if tokens.len() == 0 {
        match get_member(document, "vocab") {
            Some(vocab) => {
                match vocab {
                    Json::Object(members) => {
                        tokens = read_object_tokens(members);
                        assert(texts_of(tokens@) =~= pair_tokens(
                            ordered_by_id(id_pairs(members@)),
                        ));
                    },
                    _ => {},
                }
            },
            None => {},
        }
    }
    assert(texts_of(tokens@) == tokenizer_tokens(*document));
    match Vocabulary::new(tokens) {
        Some(v) => {
            assert(v.texts() =~= texts_of(tokens@));
            Ok(v)
        },
        None => Err(VocabError::NoEntries),
    }
}

/// Reads a vocabulary from the text of a tokenizer document.
pub fn load_tokenizer_json(data: &str) -> (vocab: Result<Vocabulary, VocabError>)
    ensures
        match vocab {
            Ok(v) => {
                &&& json_document(data@) matches Some(document)
                &&& tokenizer_tokens(document).len() > 0
                &&& v.texts() == tokenizer_tokens(document)
                &&& v.blank_id == v.tokens@.len() - 1
                &&& v.wf()
            },
            Err(e) => match json_document(data@) {
                Some(document) => e == VocabError::NoEntries && tokenizer_tokens(document).len()
                    == 0,
                None => e == VocabError::Malformed,
            },
        },
{
    match parse_json(data) {
        Ok(document) => tokenizer_vocabulary(&document),
        Err(e) => Err(e),
    }
}


/// Reads the vocabulary of a model directory from the texts of the files
/// found there: from the vocabulary text where there is one, else from the
/// tokenizer document, and from nothing where there is neither.
///
/// A vocabulary text succeeds where it has an entry and its greatest id
/// leaves room for a table; a tokenizer document succeeds where it is well
/// formed and holds a token.
pub fn load_vocabulary(vocab_txt: Option<&str>, tokenizer_json: Option<&str>) -> (vocab: Result<
    Vocabulary,
    VocabError,
>)
    ensures
        match vocab_txt {
            Some(text) => {
                &&& vocab is Ok <==> vocab_entries(text@).len() > 0 && max_id(vocab_entries(text@))
                    < usize::MAX
                &&& vocab matches Ok(v) ==> v.texts() == token_table(vocab_entries(text@))
                    && v.blank_id == max_id(vocab_entries(text@)) && v.vocab_size == max_id(
                    vocab_entries(text@),
                ) + 1 && v.wf()
                &&& vocab matches Err(e) ==> e == (if vocab_entries(text@).len() == 0 {
                    VocabError::NoEntries
                } else {
                    VocabError::IdTooLarge
                })
            },
            None => match tokenizer_json {
                Some(text) => {
                    &&& vocab is Ok <==> (json_document(text@) matches Some(document)
                        && tokenizer_tokens(document).len() > 0)
                    &&& vocab matches Ok(v) ==> (json_document(text@) matches Some(document)
                        && v.texts() == tokenizer_tokens(document)) && v.blank_id == v.tokens@.len()
                        - 1 && v.vocab_size == v.tokens@.len() && v.wf()
                    &&& vocab matches Err(e) ==> e == (if json_document(text@) is None {
                        VocabError::Malformed
                    } else {
                        VocabError::NoEntries
                    })
                },
                None => vocab == Err::<Vocabulary, VocabError>(VocabError::NoVocabularyFile),
            },
        },
{
    match vocab_txt {
        Some(text) => load_vocab_txt(text),
        None => match tokenizer_json {
            Some(text) => load_tokenizer_json(text),
            None => Err(VocabError::NoVocabularyFile),
        },
    }
}

} // verus!
