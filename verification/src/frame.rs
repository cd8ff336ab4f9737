//! The line protocol: one JSON object per line, members that are strings or flags.

use crate::text;
use crate::text::{chars_of, find};
use vstd::prelude::*;

verus! {

/// The lower-case hexadecimal digit of `n`, for `n` below 16.
pub open spec fn hex_digit(n: int) -> char {
    if n < 10 {
        (('0' as int) + n) as char
    } else {
        (('a' as int) + n - 10) as char
    }
}

/// How one character is written inside a JSON string.
pub open spec fn escaped_char(c: char) -> Seq<char> {
    if c == '"' {
        seq!['\\', '"']
    } else if c == '\\' {
        seq!['\\', '\\']
    } else if c == '\n' {
        seq!['\\', 'n']
    } else if c == '\r' {
        seq!['\\', 'r']
    } else if c == '\t' {
        seq!['\\', 't']
    } else if (c as u32) < 0x20 {
        seq!['\\', 'u', '0', '0', hex_digit((c as u32) as int / 16), hex_digit((c as u32) as int % 16)]
    } else {
        seq![c]
    }
}

/// `s` as it is written inside a JSON string: each character by itself, in order.
pub open spec fn escaped(s: Seq<char>) -> Seq<char>
    decreases s.len(),
{
    if s.len() == 0 {
        Seq::empty()
    } else {
        escaped_char(s[0]) + escaped(s.skip(1))
    }
}

/// What a backslash followed by `c` stands for.
pub open spec fn unescaped_char(c: char) -> char {
    if c == 'n' {
        '\n'
    } else if c == 'r' {
        '\r'
    } else if c == 't' {
        '\t'
    } else {
        c
    }
}

/// The string that stands before the closing quote in `rest`, its escapes resolved;
/// `None` if there is no closing quote.
pub open spec fn quoted_prefix(rest: Seq<char>) -> Option<Seq<char>>
    decreases rest.len(),
{
    if rest.len() == 0 {
        None
    } else if rest[0] == '"' {
        Some(Seq::empty())
    } else if rest[0] == '\\' {
        if rest.len() == 1 {
            None
        } else {
            match quoted_prefix(rest.skip(2)) {
                Some(tail) => Some(seq![unescaped_char(rest[1])] + tail),
                None => None,
            }
        }
    } else {
        match quoted_prefix(rest.skip(1)) {
            Some(tail) => Some(seq![rest[0]] + tail),
            None => None,
        }
    }
}

/// What stands before the value of a string member: the quoted name, a colon, a quote.
pub open spec fn member_key(name: Seq<char>) -> Seq<char> {
    seq!['"'] + name + seq!['"', ':', '"']
}

/// The string member `name` of the JSON line `line`: read behind the leftmost
/// occurrence of its key.
pub open spec fn field_of(line: Seq<char>, name: Seq<char>) -> Option<Seq<char>> {
    match text::first_occurrence(line, member_key(name)) {
        Some(i) => quoted_prefix(line.skip(i + member_key(name).len())),
        None => None,
    }
}

proof fn lemma_escaped_push(s: Seq<char>, c: char)
    ensures
        escaped(s.push(c)) == escaped(s) + escaped_char(c),
    decreases s.len(),
{
    if s.len() == 0 {
        reveal_with_fuel(escaped, 2);
        assert(s.push(c).skip(1) =~= Seq::<char>::empty());
        assert(escaped(s.push(c)) =~= escaped_char(c));
        assert(escaped(s) + escaped_char(c) =~= escaped_char(c));
    } else {
        lemma_escaped_push(s.skip(1), c);
        assert(s.push(c).skip(1) =~= s.skip(1).push(c));
        assert(escaped_char(s[0]) + (escaped(s.skip(1)) + escaped_char(c)) =~= (escaped_char(s[0])
            + escaped(s.skip(1))) + escaped_char(c));
    }
}

/// The hexadecimal digit of `n`.
fn hex_char(n: u32) -> (c: char)
    requires
        n < 16,
    ensures
        c == hex_digit(n as int),
{
    match n {
        0 => '0',
        1 => '1',
        2 => '2',
        3 => '3',
        4 => '4',
        5 => '5',
        6 => '6',
        7 => '7',
        8 => '8',
        9 => '9',
        10 => 'a',
        11 => 'b',
        12 => 'c',
        13 => 'd',
        14 => 'e',
        _ => 'f',
    }
}

/// Escapes `value` for use inside a JSON string.
pub fn escape_json(value: &str) -> (out: String)
    ensures
        out@ == escaped(value@),
{
    let mut out = String::new();
    let chars = chars_of(value);
    let mut i: usize = 0;
    while i < chars.len()
        invariant
            i <= chars@.len(),
            chars@ == value@,
            out@ == escaped(value@.take(i as int)),
        decreases chars@.len() - i,
    {
        let c = chars[i];
        let code: u32 = c as u32;
        proof {
            lemma_escaped_push(value@.take(i as int), c);
            assert(value@.take(i + 1) =~= value@.take(i as int).push(c));
        }
        let ghost before = out@;
        if c == '"' {
            out.push('\\');
            out.push('"');
        } else if c == '\\' {
            out.push('\\');
            out.push('\\');
        } else if c == '\n' {
            out.push('\\');
            out.push('n');
        } else if c == '\r' {
            out.push('\\');
            out.push('r');
        } else if c == '\t' {
            out.push('\\');
            out.push('t');
        } else if code < 0x20 {
            out.push('\\');
            out.push('u');
            out.push('0');
            out.push('0');
            out.push(hex_char(code / 16));
            out.push(hex_char(code % 16));
        } else {
            out.push(c);
        }
        assert(out@ =~= before + escaped_char(c));
        i = i + 1;
    }
    assert(value@.take(i as int) =~= value@);
    out
}

/// The key of the string member `name`, as characters.
fn key_of(name: &str) -> (key: Vec<char>)
    ensures
        key@ == member_key(name@),
{
    let mut key: Vec<char> = Vec::new();
    key.push('"');
    let mut chars = chars_of(name);
    key.append(&mut chars);
    key.push('"');
    key.push(':');
    key.push('"');
    assert(key@ =~= member_key(name@));
    key
}

/// Reads the string member `name` out of one JSON line. It knows only the shapes that
/// this protocol uses; it is no general JSON parser.
pub fn field(line: &str, name: &str) -> (value: Option<String>)
    ensures
        match value {
            Some(v) => field_of(line@, name@) == Some(v@),
            None => field_of(line@, name@) is None,
        },
{
    let chars = chars_of(line);
    let key = key_of(name);
    let len: usize = chars.len();
    let start: usize = match find(chars.as_slice(), key.as_slice()) {
        Some(i) => i + key.len(),
        None => {
            return None;
        },
    };
    let mut out = String::new();
    let mut i: usize = start;
    let ghost whole = quoted_prefix(line@.skip(start as int));
    proof {
        assert(whole is Some ==> out@ + whole->0 =~= whole->0);
    }
    while i < chars.len()
        invariant
            start <= i <= chars@.len(),
            chars@ == line@,
            field_of(line@, name@) == whole,
            match quoted_prefix(line@.skip(i as int)) {
                Some(tail) => whole == Some(out@ + tail),
                None => whole is None,
            },
        decreases chars@.len() - i,
    {
        let ghost rest = line@.skip(i as int);
        let ghost before = out@;
        let c = chars[i];
        assert(rest[0] == c);
        if c == '"' {
            assert(out@ + Seq::<char>::empty() =~= out@);
            return Some(out);
        }
        if c == '\\' {
            if i + 1 == chars.len() {
                return None;
            }
            let e = chars[i + 1];
            assert(rest[1] == e);
            assert(rest.skip(2) =~= line@.skip(i + 2));
            if e == 'n' {
                out.push('\n');
            } else if e == 'r' {
                out.push('\r');
            } else if e == 't' {
                out.push('\t');
            } else {
                out.push(e);
            }
            proof {
                if let Some(tail) = quoted_prefix(line@.skip(i + 2)) {
                    assert(before + (seq![unescaped_char(e)] + tail) =~= out@ + tail);
                }
            }
            i = i + 2;
        } else {
            assert(rest.skip(1) =~= line@.skip(i + 1));
            out.push(c);
            proof {
                if let Some(tail) = quoted_prefix(line@.skip(i + 1)) {
                    assert(before + (seq![c] + tail) =~= out@ + tail);
                }
            }
            i = i + 1;
        }
    }
    None
}

/// One member of a JSON line: a string or a flag.
pub enum Member {
    Text { name: Seq<char>, value: Seq<char> },
    Flag { name: Seq<char>, on: bool },
}

impl Member {
    pub open spec fn name(self) -> Seq<char> {
        match self {
            Member::Text { name, .. } => name,
            Member::Flag { name, .. } => name,
        }
    }
}

/// How a member is written.
pub open spec fn member_text(m: Member) -> Seq<char> {
    match m {
        Member::Text { name, value } => member_key(name) + escaped(value) + seq!['"'],
        Member::Flag { name, on } => seq!['"'] + name + seq!['"', ':'] + (if on {
            seq!['t', 'r', 'u', 'e']
        } else {
            seq!['f', 'a', 'l', 's', 'e']
        }),
    }
}

/// The members, separated by commas.
pub open spec fn joined(members: Seq<Member>) -> Seq<char>
    decreases members.len(),
{
    if members.len() == 0 {
        Seq::empty()
    } else if members.len() == 1 {
        member_text(members[0])
    } else {
        member_text(members[0]) + seq![','] + joined(members.skip(1))
    }
}

/// One line of the protocol: a JSON object and the line break that ends it.
pub open spec fn object_line(members: Seq<Member>) -> Seq<char> {
    seq!['{'] + joined(members) + seq!['}', '\n']
}

/// A member name made of letters only, as all names of the protocol are.
pub open spec fn plain_name(name: Seq<char>) -> bool {
    &&& name.len() > 0
    &&& forall|i: int|
        0 <= i < name.len() ==> ('a' <= #[trigger] name[i] <= 'z' || 'A' <= name[i] <= 'Z')
}

/// The members have plain names, and no two of them the same.
pub open spec fn well_named(members: Seq<Member>) -> bool {
    &&& forall|i: int| 0 <= i < members.len() ==> plain_name(#[trigger] members[i].name())
    &&& forall|i: int, j: int|
        0 <= i < j < members.len() ==> #[trigger] members[i].name() != #[trigger] members[j].name()
}

/// The only control characters of `s` are those that have a letter of their own after a
/// backslash: line feed, carriage return and tab.
pub open spec fn restorable(s: Seq<char>) -> bool {
    forall|i: int|
        0 <= i < s.len() ==> (#[trigger] s[i] as u32 >= 0x20 || s[i] == '\n' || s[i] == '\r'
            || s[i] == '\t')
}

/// In an escaped string every quote has a backslash before it.
proof fn lemma_escaped_quotes(s: Seq<char>, q: int)
    requires
        0 <= q < escaped(s).len(),
        escaped(s)[q] == '"',
    ensures
        q > 0,
        escaped(s)[q - 1] == '\\',
    decreases s.len(),
{
    let head = escaped_char(s[0]);
    let tail = escaped(s.skip(1));
    if q >= head.len() {
        assert(escaped(s)[q] == tail[q - head.len()]);
        lemma_escaped_quotes(s.skip(1), q - head.len());
        assert(escaped(s)[q - 1] == tail[q - head.len() - 1]);
    } else {
        assert(escaped(s)[q] == head[q]);
        let code: int = (s[0] as u32) as int;
        assert(code < 0x20 ==> hex_digit(code / 16) != '"' && hex_digit(code % 16) != '"');
        assert(q == 1);
        assert(escaped(s)[q - 1] == head[q - 1]);
    }
}

/// A key can stand inside one member only at its start, and only if that member has the
/// key's name.
proof fn lemma_key_in_member(m: Member, rest: Seq<char>, name: Seq<char>, j: int)
    requires
        plain_name(m.name()),
        plain_name(name),
        rest.len() > 0,
        rest[0] == ',' || rest[0] == '}',
        0 <= j < member_text(m).len(),
        text::occurs_at(member_text(m) + rest, member_key(name), j),
    ensures
        j == 0,
        m is Text,
        m.name() == name,
{
    let seg = member_text(m);
    let text = seg + rest;
    let key = member_key(name);
    let own = m.name();
    let n = name.len() as int;
    let o = own.len() as int;
    assert(text[j + 0] == key[0]);
    assert(text[j + (n + 1)] == key[n + 1]);
    assert(text[j + (n + 2)] == key[n + 2]);
    assert(text[j + (n + 3)] == key[n + 3]);
    assert(forall|k: int| 0 <= k < n ==> text[j + (k + 1)] == #[trigger] key[k + 1]);
    assert(forall|k: int| 0 <= k < n ==> #[trigger] name[k] == key[k + 1]);
    assert(text[j + n] == name[n - 1]);
    assert(text[j + 1] == name[0]);
    assert(forall|k: int| 0 <= k < o ==> #[trigger] own[k] == text[k + 1]);
    assert(text[0] == '"' && text[o + 1] == '"' && text[o + 2] == ':');
    if 1 <= j <= o {
        assert(own[j - 1] == text[j]);
    }
    if j == 0 {
        if n < o {
            assert(own[n] == text[n + 1]);
        }
        if n > o {
            assert(name[o] == text[o + 1]);
        }
        assert(n == o);
        assert forall|k: int| 0 <= k < n implies name[k] == own[k] by {
            assert(text[j + (k + 1)] == key[k + 1]);
        }
        assert(name =~= own);
    } else {
        match m {
            Member::Text { value, .. } => {
                let esc = escaped(value);
                let close: int = o + 4 + esc.len() as int;
                assert(text[o + 3] == '"');
                assert(text[close] == '"');
                assert(text[close + 1] == rest[0]);
                assert(forall|k: int| 0 <= k < esc.len() ==> #[trigger] esc[k] == text[o + 4 + k]);
                assert(j >= o + 3);
                let e: int = j + n + 1;
                if j == close {
                    assert(false);
                } else if e < close {
                    let q: int = e - o - 4;
                    assert(esc[q] == text[e]);
                    lemma_escaped_quotes(value, q);
                    assert(esc[q - 1] == text[e - 1]);
                    assert(false);
                } else if e == close {
                    assert(false);
                } else {
                    assert(text[j + ((close - j - 1) + 1)] == key[(close - j - 1) + 1]);
                    assert(name[close - j - 1] == '"');
                    assert(false);
                }
            },
            Member::Flag { on, .. } => {
                assert(forall|k: int| o + 2 <= k < seg.len() ==> #[trigger] text[k] != '"');
                assert(false);
            },
        }
    }
    assert(m is Text);
}

/// What follows from a member on: that member, the later ones, the end of the object.
spec fn from_member(members: Seq<Member>) -> Seq<char> {
    joined(members) + seq!['}', '\n']
}

/// Where member `k` begins, counted from the first member.
spec fn offset(members: Seq<Member>, k: int) -> int
    decreases k,
{
    if k <= 0 {
        0
    } else {
        member_text(members[0]).len() + 1 + offset(members.skip(1), k - 1)
    }
}

/// The first member and what stands behind it.
proof fn lemma_from_member(members: Seq<Member>) -> (rest: Seq<char>)
    requires
        members.len() > 0,
    ensures
        from_member(members) == member_text(members[0]) + rest,
        members.len() == 1 ==> rest == seq!['}', '\n'],
        members.len() > 1 ==> rest == seq![','] + from_member(members.skip(1)),
        rest.len() > 0,
        rest[0] == ',' || rest[0] == '}',
{
    if members.len() == 1 {
        seq!['}', '\n']
    } else {
        let rest = seq![','] + from_member(members.skip(1));
        assert(from_member(members) =~= member_text(members[0]) + rest);
        rest
    }
}

/// Behind the members before it stands member `k`.
proof fn lemma_at_offset(members: Seq<Member>, k: int)
    requires
        0 <= k < members.len(),
    ensures
        0 <= offset(members, k) <= from_member(members).len(),
        from_member(members).skip(offset(members, k)) == from_member(members.skip(k)),
    decreases k,
{
    if k == 0 {
        assert(from_member(members).skip(0) =~= from_member(members));
        assert(members.skip(0) =~= members);
    } else {
        let rest = lemma_from_member(members);
        let head = member_text(members[0]).len() as int;
        lemma_at_offset(members.skip(1), k - 1);
        assert(members.skip(1).skip(k - 1) =~= members.skip(k));
        let inner = from_member(members.skip(1));
        assert(from_member(members).skip(offset(members, k)) =~= inner.skip(
            offset(members.skip(1), k - 1),
        ));
    }
}

/// A key stands in an object only where a string member of that name begins.
proof fn lemma_key_in_object(members: Seq<Member>, name: Seq<char>, j: int) -> (k: int)
    requires
        members.len() > 0,
        forall|i: int| 0 <= i < members.len() ==> plain_name(#[trigger] members[i].name()),
        plain_name(name),
        text::occurs_at(from_member(members), member_key(name), j),
    ensures
        0 <= k < members.len(),
        members[k] is Text,
        members[k].name() == name,
        j == offset(members, k),
    decreases members.len(),
{
    let rest = lemma_from_member(members);
    let line = from_member(members);
    let key = member_key(name);
    let head = member_text(members[0]).len() as int;
    assert(plain_name(members[0].name()));
    assert(line[j + 0] == key[0]);
    if j < head {
        lemma_key_in_member(members[0], rest, name, j);
        0
    } else if members.len() == 1 {
        assert(line[j] == rest[j - head]);
        assert(false);
        0
    } else {
        let tail = members.skip(1);
        let inner = from_member(tail);
        assert(line[j] == rest[j - head]);
        assert(j > head);
        assert forall|i: int| 0 <= i < key.len() implies #[trigger] inner[j - head - 1 + i]
            == key[i] by {
            assert(line[j + i] == key[i]);
        }
        assert(text::occurs_at(inner, key, j - head - 1));
        assert forall|i: int| 0 <= i < tail.len() implies plain_name(
            #[trigger] tail[i].name(),
        ) by {
            assert(tail[i] == members[i + 1]);
        }
        let k: int = lemma_key_in_object(tail, name, j - head - 1);
        assert(members.skip(1)[k] == members[k + 1]);
        k + 1
    }
}

/// Reading behind the key of a member gives its value back.
proof fn lemma_quoted_prefix_escaped(value: Seq<char>, rest: Seq<char>)
    requires
        restorable(value),
    ensures
        quoted_prefix(escaped(value) + seq!['"'] + rest) == Some(value),
    decreases value.len(),
{
    let text = escaped(value) + seq!['"'] + rest;
    if value.len() == 0 {
        assert(text[0] == '"');
        assert(value =~= Seq::empty());
    } else {
        let c = value[0];
        let head = escaped_char(c);
        let tail = value.skip(1);
        let next = escaped(tail) + seq!['"'] + rest;
        assert forall|i: int| 0 <= i < tail.len() implies (#[trigger] tail[i] as u32 >= 0x20
            || tail[i] == '\n' || tail[i] == '\r' || tail[i] == '\t') by {
            assert(tail[i] == value[i + 1]);
        }
        lemma_quoted_prefix_escaped(tail, rest);
        assert(text =~= head + next);
        assert(text[0] == head[0]);
        assert(text.skip(head.len() as int) =~= next);
        if head.len() == 2 {
            assert(text[1] == head[1]);
        }
        assert(value =~= seq![c] + tail);
    }
}

/// The leftmost occurrence of a member's key in a line is the one that begins the
/// member.
proof fn lemma_key_position(members: Seq<Member>, k: int) -> (p: int)
    requires
        well_named(members),
        0 <= k < members.len(),
        members[k] is Text,
    ensures
        text::first_at(object_line(members), member_key(members[k].name()), p),
        forall|j: int|
            #[trigger] text::occurs_at(object_line(members), member_key(members[k].name()), j)
                ==> j == p,
        object_line(members).skip(p) == from_member(members.skip(k)),
{
    let line = object_line(members);
    let inner = from_member(members);
    let name = members[k].name();
    let key = member_key(name);
    let p: int = 1 + offset(members, k);
    assert(line =~= seq!['{'] + inner);
    lemma_at_offset(members, k);
    assert(line.skip(p) =~= inner.skip(p - 1));
    let rest = lemma_from_member(members.skip(k));
    assert(members.skip(k)[0] == members[k]);
    let here = from_member(members.skip(k));
    assert forall|i: int| 0 <= i < key.len() implies #[trigger] line[p + i] == key[i] by {
        assert(here[i] == line.skip(p)[i]);
        assert(here[i] == member_text(members[k])[i]);
    }
    assert(text::occurs_at(line, key, p));
    assert forall|j: int| #[trigger] text::occurs_at(line, key, j) implies j == p by {
        assert(line[j + 0] == key[0]);
        assert(j > 0);
        assert forall|i: int| 0 <= i < key.len() implies #[trigger] inner[j - 1 + i] == key[i] by {
            assert(line[j + i] == key[i]);
        }
        assert(plain_name(members[k].name()));
        let found: int = lemma_key_in_object(members, name, j - 1);
        assert(members[found].name() == members[k].name());
        assert(found == k);
    }
    p
}

/// Reading a member out of a line gives back the string that was written there, if that
/// string is `restorable`.
pub proof fn law_field_reads_what_was_written(members: Seq<Member>, k: int)
    requires
        well_named(members),
        0 <= k < members.len(),
        members[k] matches Member::Text { value, .. } && restorable(value),
    ensures
        field_of(object_line(members), members[k].name()) == Some(members[k]->value),
{
    let line = object_line(members);
    let key = member_key(members[k].name());
    let p: int = lemma_key_position(members, k);
    text::lemma_first_occurrence(line, key, p);
    let rest = lemma_from_member(members.skip(k));
    assert(members.skip(k)[0] == members[k]);
    let value = members[k]->value;
    assert(line.skip(p + key.len()) =~= line.skip(p).skip(key.len() as int));
    assert(line.skip(p + key.len()) =~= escaped(value) + seq!['"'] + rest);
    lemma_quoted_prefix_escaped(value, rest);
}

/// No control character survives escaping.
proof fn lemma_escaped_is_printable(s: Seq<char>, i: int)
    requires
        0 <= i < escaped(s).len(),
    ensures
        escaped(s)[i] as u32 >= 0x20,
    decreases s.len(),
{
    let head = escaped_char(s[0]);
    let tail = escaped(s.skip(1));
    if i < head.len() {
        assert(escaped(s)[i] == head[i]);
        let code: int = (s[0] as u32) as int;
        assert(code < 0x20 ==> hex_digit(code / 16) as u32 >= 0x20 && hex_digit(code % 16) as u32
            >= 0x20);
    } else {
        assert(escaped(s)[i] == tail[i - head.len()]);
        lemma_escaped_is_printable(s.skip(1), i - head.len());
    }
}

proof fn lemma_joined_is_printable(members: Seq<Member>, i: int)
    requires
        forall|k: int| 0 <= k < members.len() ==> plain_name(#[trigger] members[k].name()),
        0 <= i < joined(members).len(),
    ensures
        joined(members)[i] as u32 >= 0x20,
    decreases members.len(),
{
    let m = members[0];
    let head = member_text(m);
    assert(plain_name(m.name()));
    if i < head.len() {
        assert(joined(members)[i] == head[i]);
        let o = m.name().len() as int;
        if 1 <= i <= o {
            assert(head[i] == m.name()[i - 1]);
        }
        if let Member::Text { name, value } = m {
            if o + 4 <= i < head.len() - 1 {
                assert(head[i] == escaped(value)[i - o - 4]);
                lemma_escaped_is_printable(value, i - o - 4);
            }
        }
    } else if i > head.len() {
        let tail = members.skip(1);
        assert forall|k: int| 0 <= k < tail.len() implies plain_name(#[trigger] tail[k].name()) by {
            assert(tail[k] == members[k + 1]);
        }
        assert(joined(members)[i] == joined(tail)[i - head.len() - 1]);
        lemma_joined_is_printable(tail, i - head.len() - 1);
    }
}

/// Whatever the members hold, a line ends in a line break and has no other: nothing in
/// a payload can break the one-object-per-line framing.
pub proof fn law_one_object_per_line(members: Seq<Member>)
    requires
        well_named(members),
    ensures
        object_line(members).last() == '\n',
        forall|i: int|
            0 <= i < object_line(members).len() - 1 ==> #[trigger] object_line(members)[i] as u32
                >= 0x20,
{
    let line = object_line(members);
    assert forall|i: int| 0 <= i < line.len() - 1 implies #[trigger] line[i] as u32 >= 0x20 by {
        if 1 <= i < line.len() - 2 {
            assert(line[i] == joined(members)[i - 1]);
            lemma_joined_is_printable(members, i - 1);
        }
    }
}

/// A string member.
pub open spec fn text_member(name: Seq<char>, value: Seq<char>) -> Member {
    Member::Text { name, value }
}

/// The frame that declares a connection ready for control commands.
pub open spec fn ready_frame(token: Seq<char>) -> Seq<char> {
    object_line(seq![text_member("token"@, token), text_member("kind"@, "control_ready"@)])
}

/// The frame that carries one event.
pub open spec fn event_frame(
    token: Seq<char>,
    kind: Seq<char>,
    text: Seq<char>,
    message_id: Seq<char>,
) -> Seq<char> {
    object_line(
        seq![
            text_member("token"@, token),
            text_member("kind"@, kind),
            text_member("text"@, text),
            text_member("messageId"@, message_id),
        ],
    )
}

/// The frame that answers one control command.
pub open spec fn control_result_frame(
    token: Seq<char>,
    request_id: Seq<char>,
    ok: bool,
    text: Seq<char>,
) -> Seq<char> {
    object_line(
        seq![
            text_member("token"@, token),
            text_member("kind"@, "control_result"@),
            text_member("requestId"@, request_id),
            Member::Flag { name: "ok"@, on: ok },
            text_member("text"@, text),
        ],
    )
}

/// Appends a string member.
fn push_text(out: &mut String, name: &str, value: &str)
    ensures
        final(out)@ == old(out)@ + member_text(text_member(name@, value@)),
{
    out.push('"');
    out.append(name);
    out.push('"');
    out.push(':');
    out.push('"');
    let written = escape_json(value);
    out.append(written.as_str());
    out.push('"');
    assert(out@ =~= old(out)@ + member_text(text_member(name@, value@)));
}

/// Appends a flag.
fn push_flag(out: &mut String, name: &str, on: bool)
    ensures
        final(out)@ == old(out)@ + member_text(Member::Flag { name: name@, on }),
{
    proof {
        reveal_strlit("true");
        reveal_strlit("false");
    }
    out.push('"');
    out.append(name);
    out.push('"');
    out.push(':');
    if on {
        out.append("true");
    } else {
        out.append("false");
    }
    assert(out@ =~= old(out)@ + member_text(Member::Flag { name: name@, on }));
}

/// Writes the frame that declares a connection ready for control commands.
pub fn ready_line(token: &str) -> (line: String)
    ensures
        line@ == ready_frame(token@),
{
    let mut line = String::new();
    line.push('{');
    push_text(&mut line, "token", token);
    line.push(',');
    push_text(&mut line, "kind", "control_ready");
    line.push('}');
    line.push('\n');
    proof {
        reveal_with_fuel(joined, 3);
        let members = seq![
            text_member("token"@, token@),
            text_member("kind"@, "control_ready"@),
        ];
        assert(members.skip(1) =~= seq![members[1]]);
        assert(line@ =~= object_line(members));
    }
    line
}

/// Writes the frame that carries one event.
pub fn event_line(token: &str, kind: &str, text: &str, message_id: &str) -> (line: String)
    ensures
        line@ == event_frame(token@, kind@, text@, message_id@),
{
    let mut line = String::new();
    line.push('{');
    push_text(&mut line, "token", token);
    line.push(',');
    push_text(&mut line, "kind", kind);
    line.push(',');
    push_text(&mut line, "text", text);
    line.push(',');
    push_text(&mut line, "messageId", message_id);
    line.push('}');
    line.push('\n');
    proof {
        reveal_with_fuel(joined, 5);
        let members = seq![
            text_member("token"@, token@),
            text_member("kind"@, kind@),
            text_member("text"@, text@),
            text_member("messageId"@, message_id@),
        ];
        assert(members.skip(1) =~= seq![members[1], members[2], members[3]]);
        assert(members.skip(1).skip(1) =~= seq![members[2], members[3]]);
        assert(members.skip(1).skip(1).skip(1) =~= seq![members[3]]);
        assert(line@ =~= object_line(members));
    }
    line
}

/// Writes the frame that answers one control command.
pub fn control_result_line(token: &str, request_id: &str, ok: bool, text: &str) -> (line: String)
    ensures
        line@ == control_result_frame(token@, request_id@, ok, text@),
{
    let mut line = String::new();
    line.push('{');
    push_text(&mut line, "token", token);
    line.push(',');
    push_text(&mut line, "kind", "control_result");
    line.push(',');
    push_text(&mut line, "requestId", request_id);
    line.push(',');
    push_flag(&mut line, "ok", ok);
    line.push(',');
    push_text(&mut line, "text", text);
    line.push('}');
    line.push('\n');
    proof {
        reveal_with_fuel(joined, 6);
        let members = seq![
            text_member("token"@, token@),
            text_member("kind"@, "control_result"@),
            text_member("requestId"@, request_id@),
            Member::Flag { name: "ok"@, on: ok },
            text_member("text"@, text@),
        ];
        assert(members.skip(1) =~= seq![members[1], members[2], members[3], members[4]]);
        assert(members.skip(1).skip(1) =~= seq![members[2], members[3], members[4]]);
        assert(members.skip(1).skip(1).skip(1) =~= seq![members[3], members[4]]);
        assert(members.skip(1).skip(1).skip(1).skip(1) =~= seq![members[4]]);
        assert(line@ =~= object_line(members));
    }
    line
}

/// The names that the protocol uses are plain, and no two of them the same.
proof fn lemma_protocol_names()
    ensures
        plain_name("token"@),
        plain_name("kind"@),
        plain_name("text"@),
        plain_name("messageId"@),
        plain_name("requestId"@),
        plain_name("command"@),
        plain_name("ok"@),
        "token"@.len() == 5,
        "kind"@.len() == 4,
        "text"@.len() == 4,
        "messageId"@.len() == 9,
        "requestId"@.len() == 9,
        "command"@.len() == 7,
        "ok"@.len() == 2,
        "kind"@[0] == 'k',
        "text"@[0] == 't',
        "messageId"@[0] == 'm',
        "requestId"@[0] == 'r',
{
    reveal_strlit("token");
    reveal_strlit("kind");
    reveal_strlit("text");
    reveal_strlit("messageId");
    reveal_strlit("requestId");
    reveal_strlit("command");
    reveal_strlit("ok");
}

/// An event frame is one line, and each of its members can be read back from it.
pub proof fn law_event_frame(
    token: Seq<char>,
    kind: Seq<char>,
    text: Seq<char>,
    message_id: Seq<char>,
)
    ensures
        ({
            let frame = event_frame(token, kind, text, message_id);
            &&& frame.last() == '\n'
            &&& forall|i: int| 0 <= i < frame.len() - 1 ==> #[trigger] frame[i] != '\n'
            &&& restorable(token) ==> field_of(frame, "token"@) == Some(token)
            &&& restorable(kind) ==> field_of(frame, "kind"@) == Some(kind)
            &&& restorable(text) ==> field_of(frame, "text"@) == Some(text)
            &&& restorable(message_id) ==> field_of(frame, "messageId"@) == Some(message_id)
        }),
{
    let members = seq![
        text_member("token"@, token),
        text_member("kind"@, kind),
        text_member("text"@, text),
        text_member("messageId"@, message_id),
    ];
    lemma_protocol_names();
    assert(well_named(members));
    law_one_object_per_line(members);
    if restorable(token) {
        law_field_reads_what_was_written(members, 0);
    }
    if restorable(kind) {
        law_field_reads_what_was_written(members, 1);
    }
    if restorable(text) {
        law_field_reads_what_was_written(members, 2);
    }
    if restorable(message_id) {
        law_field_reads_what_was_written(members, 3);
    }
}

/// The answer to a control command is one line, and its token, its request and its text
/// can be read back from it.
pub proof fn law_control_result_frame(
    token: Seq<char>,
    request_id: Seq<char>,
    ok: bool,
    text: Seq<char>,
)
    ensures
        ({
            let frame = control_result_frame(token, request_id, ok, text);
            &&& frame.last() == '\n'
            &&& forall|i: int| 0 <= i < frame.len() - 1 ==> #[trigger] frame[i] != '\n'
            &&& restorable(token) ==> field_of(frame, "token"@) == Some(token)
            &&& field_of(frame, "kind"@) == Some("control_result"@)
            &&& restorable(request_id) ==> field_of(frame, "requestId"@) == Some(request_id)
            &&& restorable(text) ==> field_of(frame, "text"@) == Some(text)
        }),
{
    let members = seq![
        text_member("token"@, token),
        text_member("kind"@, "control_result"@),
        text_member("requestId"@, request_id),
        Member::Flag { name: "ok"@, on: ok },
        text_member("text"@, text),
    ];
    lemma_protocol_names();
    assert(well_named(members));
    law_one_object_per_line(members);
    reveal_strlit("control_result");
    law_field_reads_what_was_written(members, 1);
    if restorable(token) {
        law_field_reads_what_was_written(members, 0);
    }
    if restorable(request_id) {
        law_field_reads_what_was_written(members, 2);
    }
    if restorable(text) {
        law_field_reads_what_was_written(members, 4);
    }
}

/// The frame that declares a connection ready is one line, and its token and its kind
/// can be read back from it.
pub proof fn law_ready_frame(token: Seq<char>)
    ensures
        ({
            let frame = ready_frame(token);
            &&& frame.last() == '\n'
            &&& forall|i: int| 0 <= i < frame.len() - 1 ==> #[trigger] frame[i] != '\n'
            &&& restorable(token) ==> field_of(frame, "token"@) == Some(token)
            &&& field_of(frame, "kind"@) == Some("control_ready"@)
        }),
{
    let members = seq![text_member("token"@, token), text_member("kind"@, "control_ready"@)];
    lemma_protocol_names();
    assert(well_named(members));
    law_one_object_per_line(members);
    reveal_strlit("control_ready");
    law_field_reads_what_was_written(members, 1);
    if restorable(token) {
        law_field_reads_what_was_written(members, 0);
    }
}

/// The frame by which the host acknowledges an event.
pub open spec fn ack_frame(token: Seq<char>, message_id: Seq<char>) -> Seq<char> {
    object_line(
        seq![
            text_member("token"@, token),
            text_member("kind"@, "ack"@),
            text_member("messageId"@, message_id),
        ],
    )
}

/// The frame by which the host gives a command.
pub open spec fn control_frame(
    token: Seq<char>,
    request_id: Seq<char>,
    command: Seq<char>,
) -> Seq<char> {
    object_line(
        seq![
            text_member("token"@, token),
            text_member("kind"@, "control"@),
            text_member("requestId"@, request_id),
            text_member("command"@, command),
        ],
    )
}

/// Letters are written as they are.
proof fn lemma_escaped_plain(s: Seq<char>)
    requires
        forall|i: int|
            0 <= i < s.len() ==> ('a' <= #[trigger] s[i] <= 'z' || 'A' <= s[i] <= 'Z'),
    ensures
        escaped(s) == s,
    decreases s.len(),
{
    if s.len() > 0 {
        let c = s[0];
        assert('a' <= c <= 'z' || 'A' <= c <= 'Z');
        assert forall|i: int| 0 <= i < s.skip(1).len() implies ('a' <= #[trigger] s.skip(1)[i]
            <= 'z' || 'A' <= s.skip(1)[i] <= 'Z') by {
            assert(s.skip(1)[i] == s[i + 1]);
        }
        lemma_escaped_plain(s.skip(1));
        assert(escaped_char(c) =~= seq![c]);
        assert(seq![c] + s.skip(1) =~= s);
    } else {
        assert(s =~= Seq::<char>::empty());
    }
}

/// A line says `"name":"word"` exactly if its member `name` is `word`, for words made of
/// letters.
proof fn lemma_member_marker(members: Seq<Member>, k: int, word: Seq<char>)
    requires
        well_named(members),
        0 <= k < members.len(),
        members[k] matches Member::Text { value, .. } && plain_name(value),
        plain_name(word),
    ensures
        text::contains_text(
            object_line(members),
            member_key(members[k].name()) + word + seq!['"'],
        ) <==> members[k]->value == word,
{
    let line = object_line(members);
    let key = member_key(members[k].name());
    let marker = key + word + seq!['"'];
    let value = members[k]->value;
    let p: int = lemma_key_position(members, k);
    let rest = lemma_from_member(members.skip(k));
    assert(members.skip(k)[0] == members[k]);
    lemma_escaped_plain(value);
    let here = key + value + seq!['"'] + rest;
    assert(line.skip(p) =~= here);
    let n = key.len() as int;
    assert forall|i: int| 0 <= i < here.len() implies #[trigger] line[p + i] == here[i] by {
        assert(line.skip(p)[i] == here[i]);
    }
    if value == word {
        assert(text::occurs_at(line, marker, p));
    }
    if text::contains_text(line, marker) {
        let j: int = choose|j: int| text::occurs_at(line, marker, j);
        assert forall|i: int| 0 <= i < key.len() implies #[trigger] line[j + i] == key[i] by {
            assert(line[j + i] == marker[i]);
        }
        assert(text::occurs_at(line, key, j));
        assert(j == p);
        assert forall|i: int| 0 <= i < word.len() implies #[trigger] word[i] == here[n + i] by {
            assert(line[p + (n + i)] == marker[n + i]);
            assert(line[p + (n + i)] == here[n + i]);
        }
        assert(line[p + (n + word.len())] == marker[n + word.len()]);
        assert(here[n + word.len()] == '"');
        if value.len() < word.len() {
            assert(word[value.len() as int] == here[n + value.len()]);
        }
        if value.len() > word.len() {
            assert(here[n + word.len()] == value[word.len() as int]);
        }
        assert forall|i: int| 0 <= i < word.len() implies word[i] == value[i] by {
            assert(word[i] == here[n + i]);
        }
        assert(value =~= word);
    }
}

/// A frame by which the host acknowledges an event is one, and names that event.
pub proof fn lemma_ack_frame(token: Seq<char>, message_id: Seq<char>)
    requires
        restorable(message_id),
    ensures
        text::contains_text(ack_frame(token, message_id), "\"kind\":\"ack\""@),
        field_of(ack_frame(token, message_id), "messageId"@) == Some(message_id),
{
    let members = seq![
        text_member("token"@, token),
        text_member("kind"@, "ack"@),
        text_member("messageId"@, message_id),
    ];
    lemma_protocol_names();
    reveal_strlit("ack");
    reveal_strlit("kind");
    reveal_strlit("\"kind\":\"ack\"");
    assert(well_named(members));
    assert("\"kind\":\"ack\""@ =~= member_key("kind"@) + "ack"@ + seq!['"']);
    lemma_member_marker(members, 1, "ack"@);
    law_field_reads_what_was_written(members, 2);
}

/// A frame by which the host gives a command is one, acknowledges nothing, and names the
/// request and the command.
pub proof fn lemma_control_frame(token: Seq<char>, request_id: Seq<char>, command: Seq<char>)
    requires
        restorable(request_id),
        restorable(command),
    ensures
        !text::contains_text(
            control_frame(token, request_id, command),
            "\"kind\":\"ack\""@,
        ),
        text::contains_text(
            control_frame(token, request_id, command),
            "\"kind\":\"control\""@,
        ),
        field_of(control_frame(token, request_id, command), "requestId"@) == Some(request_id),
        field_of(control_frame(token, request_id, command), "command"@) == Some(command),
{
    let members = seq![
        text_member("token"@, token),
        text_member("kind"@, "control"@),
        text_member("requestId"@, request_id),
        text_member("command"@, command),
    ];
    lemma_protocol_names();
    reveal_strlit("ack");
    reveal_strlit("control");
    reveal_strlit("kind");
    reveal_strlit("\"kind\":\"ack\"");
    reveal_strlit("\"kind\":\"control\"");
    assert(well_named(members));
    assert("\"kind\":\"ack\""@ =~= member_key("kind"@) + "ack"@ + seq!['"']);
    assert("\"kind\":\"control\""@ =~= member_key("kind"@) + "control"@ + seq!['"']);
    lemma_member_marker(members, 1, "ack"@);
    lemma_member_marker(members, 1, "control"@);
    law_field_reads_what_was_written(members, 2);
    law_field_reads_what_was_written(members, 3);
}

/// Escaping goes character by character: quotes, backslashes, line feeds, carriage returns and
/// tabs have a letter of their own, other control characters their number in hexadecimal
/// digits, and every other character stands for itself.
pub proof fn law_escaping_goes_character_by_character(s: Seq<char>, c: char)
    ensures
        escaped(Seq::<char>::empty()) == Seq::<char>::empty(),
        escaped(s.push(c)) == escaped(s) + (if c == '"' {
            seq!['\\', '"']
        } else if c == '\\' {
            seq!['\\', '\\']
        } else if c == '\n' {
            seq!['\\', 'n']
        } else if c == '\r' {
            seq!['\\', 'r']
        } else if c == '\t' {
            seq!['\\', 't']
        } else if (c as u32) < 0x10 {
            seq!['\\', 'u', '0', '0', '0', last_hex_digit(c)]
        } else if (c as u32) < 0x20 {
            seq!['\\', 'u', '0', '0', '1', last_hex_digit(c)]
        } else {
            seq![c]
        }),
{
    lemma_escaped_push(s, c);
}

/// The last hexadecimal digit of the number of a character.
pub open spec fn last_hex_digit(c: char) -> char {
    let n = c as u32 % 16;
    if n == 10 {
        'a'
    } else if n == 11 {
        'b'
    } else if n == 12 {
        'c'
    } else if n == 13 {
        'd'
    } else if n == 14 {
        'e'
    } else if n == 15 {
        'f'
    } else {
        (0x30 + n) as char
    }
}

/// Reading goes character by character up to the closing quote: a backslash and `n`, `r` or `t`
/// stand for a control character, a backslash and anything else for that, and every other
/// character for itself. Without a closing quote nothing is read.
pub proof fn law_reading_goes_character_by_character(c: char, e: char, rest: Seq<char>)
    ensures
        quoted_prefix(Seq::<char>::empty()) is None,
        quoted_prefix(seq!['\\']) is None,
        quoted_prefix(seq!['"'] + rest) == Some(Seq::<char>::empty()),
        c != '"' && c != '\\' ==> quoted_prefix(seq![c] + rest) == (match quoted_prefix(rest) {
            Some(tail) => Some(seq![c] + tail),
            None => None,
        }),
        quoted_prefix(seq!['\\', e] + rest) == (match quoted_prefix(rest) {
            Some(tail) => Some(
                seq![
                    if e == 'n' {
                        '\n'
                    } else if e == 'r' {
                        '\r'
                    } else if e == 't' {
                        '\t'
                    } else {
                        e
                    },
                ] + tail,
            ),
            None => None,
        }),
{
    assert((seq!['"'] + rest)[0] == '"');
    assert((seq![c] + rest)[0] == c);
    assert((seq![c] + rest).skip(1) =~= rest);
    assert((seq!['\\', e] + rest)[0] == '\\');
    assert((seq!['\\', e] + rest)[1] == e);
    assert((seq!['\\', e] + rest).skip(2) =~= rest);
}

/// A member is read behind the leftmost place at which its quoted name, a colon and a quote
/// stand, and is missing where they stand nowhere.
pub proof fn law_member_is_read_behind_its_key(line: Seq<char>, name: Seq<char>, i: int)
    ensures
        ({
            let key = seq!['"'] + name + seq!['"', ':', '"'];
            &&& text::first_at(line, key, i) ==> field_of(line, name) == quoted_prefix(
                line.skip(i + name.len() + 4),
            )
            &&& !text::contains_text(line, key) ==> field_of(line, name) is None
        }),
{
    let key = seq!['"'] + name + seq!['"', ':', '"'];
    assert(key =~= member_key(name));
    if text::first_at(line, key, i) {
        text::lemma_first_occurrence(line, key, i);
    }
}

/// The frames that go to the host, letter by letter.
pub proof fn law_frames_to_the_host_letter_by_letter(
    token: Seq<char>,
    kind: Seq<char>,
    text: Seq<char>,
    id: Seq<char>,
)
    ensures
        ready_frame(token) == "{\"token\":\""@ + (escaped(token)
            + "\",\"kind\":\"control_ready\"}\n"@),
        event_frame(token, kind, text, id) == "{\"token\":\""@ + (escaped(token) + (
        "\",\"kind\":\""@ + (escaped(kind) + ("\",\"text\":\""@ + (escaped(text) + (
        "\",\"messageId\":\""@ + (escaped(id) + "\"}\n"@))))))),
        control_result_frame(token, id, true, text) == "{\"token\":\""@ + (escaped(token) + (
        "\",\"kind\":\"control_result\",\"requestId\":\""@ + (escaped(id) + (
        "\",\"ok\":true,\"text\":\""@ + (escaped(text) + "\"}\n"@))))),
        control_result_frame(token, id, false, text) == "{\"token\":\""@ + (escaped(token) + (
        "\",\"kind\":\"control_result\",\"requestId\":\""@ + (escaped(id) + (
        "\",\"ok\":false,\"text\":\""@ + (escaped(text) + "\"}\n"@))))),
{
    lemma_ready_letters(token);
    lemma_event_letters(token, kind, text, id);
    lemma_result_letters(token, id, true, text);
    lemma_result_letters(token, id, false, text);
}

/// Characters that are not escaped are written as they are.
proof fn lemma_escaped_as_it_is(s: Seq<char>)
    requires
        forall|i: int|
            0 <= i < s.len() ==> (#[trigger] s[i]) as u32 >= 0x20 && s[i] != '"' && s[i] != '\\',
    ensures
        escaped(s) == s,
    decreases s.len(),
{
    if s.len() > 0 {
        let tail = s.skip(1);
        assert forall|i: int| 0 <= i < tail.len() implies (#[trigger] tail[i]) as u32 >= 0x20
            && tail[i] != '"' && tail[i] != '\\' by {
            assert(tail[i] == s[i + 1]);
        }
        lemma_escaped_as_it_is(tail);
        assert(s[0] as u32 >= 0x20);
        assert(escaped_char(s[0]) =~= seq![s[0]]);
        assert(seq![s[0]] + tail =~= s);
    } else {
        assert(s =~= Seq::<char>::empty());
    }
}

proof fn lemma_kinds_are_plain()
    ensures
        escaped("control_ready"@) == "control_ready"@,
        escaped("control_result"@) == "control_result"@,
{
    reveal_strlit("control_ready");
    reveal_strlit("control_result");
    lemma_escaped_as_it_is("control_ready"@);
    lemma_escaped_as_it_is("control_result"@);
}

/// A text member and what stands behind it, from its value on.
proof fn lemma_text_then(name: Seq<char>, value: Seq<char>, rest: Seq<char>)
    ensures
        member_text(text_member(name, value)) + rest == member_key(name) + (escaped(value) + (
        seq!['"'] + rest)),
{
    assert(member_text(text_member(name, value)) + rest =~= member_key(name) + (escaped(value) + (
    seq!['"'] + rest)));
}

/// Three texts side by side, grouped either way.
proof fn lemma_grouped(a: Seq<char>, b: Seq<char>, c: Seq<char>)
    ensures
        (a + b) + c == a + (b + c),
{
    assert((a + b) + c =~= a + (b + c));
}

/// What follows from a text member on, letter by letter.
proof fn lemma_from_text_member(members: Seq<Member>)
    requires
        members.len() > 0,
        members[0] is Text,
    ensures
        from_member(members) == member_key(members[0].name()) + (escaped(members[0]->value) + (
        seq!['"'] + (if members.len() == 1 {
            seq!['}', '\n']
        } else {
            seq![','] + from_member(members.skip(1))
        }))),
{
    let rest = lemma_from_member(members);
    lemma_text_then(members[0].name(), members[0]->value, rest);
}

proof fn lemma_ready_letters(token: Seq<char>)
    ensures
        ready_frame(token) == "{\"token\":\""@ + (escaped(token)
            + "\",\"kind\":\"control_ready\"}\n"@),
{
    lemma_kinds_are_plain();
    let members = seq![text_member("token"@, token), text_member("kind"@, "control_ready"@)];
    lemma_from_text_member(members);
    assert(members.skip(1) =~= seq![members[1]]);
    lemma_from_text_member(members.skip(1));
    let tail = seq!['"'] + (seq![','] + (member_key("kind"@) + ("control_ready"@ + (seq!['"']
        + seq!['}', '\n']))));
    assert(tail == "\",\"kind\":\"control_ready\"}\n"@) by {
        reveal_strlit("kind");
        reveal_strlit("control_ready");
        reveal_strlit("\",\"kind\":\"control_ready\"}\n");
        assert(tail =~= "\",\"kind\":\"control_ready\"}\n"@);
    }
    lemma_opening(members, token);
}

/// A line that begins with the token, letter by letter.
proof fn lemma_opening(members: Seq<Member>, token: Seq<char>)
    requires
        members.len() > 1,
        members[0] == text_member("token"@, token),
    ensures
        object_line(members) == "{\"token\":\""@ + (escaped(token) + (seq!['"'] + (seq![',']
            + from_member(members.skip(1))))),
{
    lemma_from_text_member(members);
    let rest = escaped(token) + (seq!['"'] + (seq![','] + from_member(members.skip(1))));
    assert("{\"token\":\""@ == seq!['{'] + member_key("token"@)) by {
        reveal_strlit("token");
        reveal_strlit("{\"token\":\"");
        assert("{\"token\":\""@ =~= seq!['{'] + member_key("token"@));
    }
    assert(object_line(members) =~= seq!['{'] + from_member(members));
    lemma_grouped(seq!['{'], member_key("token"@), rest);
}

/// The end of one text member, and the beginning of the next.
proof fn lemma_next_key(name: Seq<char>, letters: Seq<char>, rest: Seq<char>)
    requires
        letters == seq!['"', ','] + member_key(name),
    ensures
        seq!['"'] + (seq![','] + (member_key(name) + rest)) == letters + rest,
{
    assert(seq!['"'] + (seq![','] + (member_key(name) + rest)) =~= letters + rest);
}

proof fn lemma_event_letters(token: Seq<char>, kind: Seq<char>, text: Seq<char>, id: Seq<char>)
    ensures
        event_frame(token, kind, text, id) == "{\"token\":\""@ + (escaped(token) + (
        "\",\"kind\":\""@ + (escaped(kind) + ("\",\"text\":\""@ + (escaped(text) + (
        "\",\"messageId\":\""@ + (escaped(id) + "\"}\n"@))))))),
{
    let members = seq![
        text_member("token"@, token),
        text_member("kind"@, kind),
        text_member("text"@, text),
        text_member("messageId"@, id),
    ];
    let m1 = members.skip(1);
    let m2 = m1.skip(1);
    let m3 = m2.skip(1);
    assert(m1 =~= seq![members[1], members[2], members[3]]);
    assert(m2 =~= seq![members[2], members[3]]);
    assert(m3 =~= seq![members[3]]);
    lemma_opening(members, token);
    lemma_from_text_member(m1);
    lemma_from_text_member(m2);
    lemma_from_text_member(m3);
    assert("\",\"kind\":\""@ == seq!['"', ','] + member_key("kind"@)) by {
        reveal_strlit("kind");
        reveal_strlit("\",\"kind\":\"");
        assert("\",\"kind\":\""@ =~= seq!['"', ','] + member_key("kind"@));
    }
    assert("\",\"text\":\""@ == seq!['"', ','] + member_key("text"@)) by {
        reveal_strlit("text");
        reveal_strlit("\",\"text\":\"");
        assert("\",\"text\":\""@ =~= seq!['"', ','] + member_key("text"@));
    }
    assert("\",\"messageId\":\""@ == seq!['"', ','] + member_key("messageId"@)) by {
        reveal_strlit("messageId");
        reveal_strlit("\",\"messageId\":\"");
        assert("\",\"messageId\":\""@ =~= seq!['"', ','] + member_key("messageId"@));
    }
    lemma_closing();
    let r3 = escaped(id) + "\"}\n"@;
    lemma_next_key("messageId"@, "\",\"messageId\":\""@, r3);
    let r2 = escaped(text) + ("\",\"messageId\":\""@ + r3);
    lemma_next_key("text"@, "\",\"text\":\""@, r2);
    let r1 = escaped(kind) + ("\",\"text\":\""@ + r2);
    lemma_next_key("kind"@, "\",\"kind\":\""@, r1);
}

/// The end of the last text member, and of the line.
proof fn lemma_closing()
    ensures
        "\"}\n"@ == seq!['"'] + seq!['}', '\n'],
{
    reveal_strlit("\"}\n");
    assert("\"}\n"@ =~= seq!['"'] + seq!['}', '\n']);
}

proof fn lemma_result_letters(token: Seq<char>, id: Seq<char>, ok: bool, text: Seq<char>)
    ensures
        control_result_frame(token, id, ok, text) == "{\"token\":\""@ + (escaped(token) + (
        "\",\"kind\":\"control_result\",\"requestId\":\""@ + (escaped(id) + ((if ok {
            "\",\"ok\":true,\"text\":\""@
        } else {
            "\",\"ok\":false,\"text\":\""@
        }) + (escaped(text) + "\"}\n"@))))),
{
    let flag = Member::Flag { name: "ok"@, on: ok };
    let members = seq![
        text_member("token"@, token),
        text_member("kind"@, "control_result"@),
        text_member("requestId"@, id),
        flag,
        text_member("text"@, text),
    ];
    let m1 = members.skip(1);
    let m2 = m1.skip(1);
    let m3 = m2.skip(1);
    let m4 = m3.skip(1);
    assert(m1 =~= seq![members[1], members[2], members[3], members[4]]);
    assert(m2 =~= seq![members[2], members[3], members[4]]);
    assert(m3 =~= seq![members[3], members[4]]);
    assert(m4 =~= seq![members[4]]);
    lemma_kinds_are_plain();
    lemma_opening(members, token);
    lemma_from_text_member(m1);
    lemma_from_text_member(m2);
    let behind = lemma_from_member(m3);
    lemma_from_text_member(m4);
    lemma_closing();
    let r4 = escaped(text) + "\"}\n"@;
    let middle = if ok {
        "\",\"ok\":true,\"text\":\""@
    } else {
        "\",\"ok\":false,\"text\":\""@
    };
    let before = seq!['"'] + (seq![','] + (member_text(flag) + (seq![','] + member_key("text"@))));
    assert(before == middle) by {
        reveal_strlit("ok");
        reveal_strlit("text");
        reveal_strlit("\",\"ok\":true,\"text\":\"");
        reveal_strlit("\",\"ok\":false,\"text\":\"");
        assert(before =~= middle);
    }
    let r3 = seq!['"'] + (seq![','] + (member_text(flag) + (seq![','] + (member_key("text"@)
        + r4))));
    assert(r3 =~= before + r4);
    let r2 = escaped(id) + r3;
    let head = "\",\"kind\":\"control_result\",\"requestId\":\""@;
    let start = seq!['"'] + (seq![','] + (member_key("kind"@) + ("control_result"@ + (seq!['"'] + (
    seq![','] + member_key("requestId"@))))));
    assert(start == head) by {
        reveal_strlit("kind");
        reveal_strlit("control_result");
        reveal_strlit("requestId");
        reveal_strlit("\",\"kind\":\"control_result\",\"requestId\":\"");
        assert(start =~= head);
    }
    let r1 = seq!['"'] + (seq![','] + (member_key("kind"@) + ("control_result"@ + (seq!['"'] + (
    seq![','] + (member_key("requestId"@) + r2))))));
    assert(r1 =~= start + r2);
}

} // verus!
