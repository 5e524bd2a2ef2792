//! Reading a modelling line (`名称：类型，约束…`) and the decimal literals in it.
use vstd::prelude::*;

use crate::blueprint::FieldType;
use crate::text::{lemma_find_index_bounds, 
    chars_of, concat3, contains, find_index, is_ascii_digit, owned, split_any, split_once,
    str_contains, str_eq, str_split_any, str_split_once, str_trim, string_from_chars, trim,
};

verus! {

/// Characters a number token is made of.
pub open spec fn is_number_char(c: char) -> bool {
    is_ascii_digit(c) || c == '-' || c == '.'
}

/// A token without its leading minus sign.
pub open spec fn unsigned_part(t: Seq<char>) -> Seq<char> {
    if t.len() > 0 && t[0] == '-' {
        t.drop_first()
    } else {
        t
    }
}

/// How many times `c` occurs in `s`.
pub open spec fn count_char(s: Seq<char>, c: char) -> nat
    decreases s.len(),
{
    if s.len() == 0 {
        0
    } else {
        count_char(s.drop_last(), c) + if s.last() == c {
            1nat
        } else {
            0nat
        }
    }
}

/// A digit or a decimal point.
pub open spec fn is_literal_char(c: char) -> bool {
    is_ascii_digit(c) || c == '.'
}

/// A token made of number characters that Rust reads as an `f64`: an optional
/// minus sign, then digits with at most one decimal point, at least one digit.
pub open spec fn is_decimal_literal(t: Seq<char>) -> bool {
    let body = unsigned_part(t);
    &&& forall|i: int| 0 <= i < body.len() ==> #[trigger] is_literal_char(body[i])
    &&& count_char(body, '.') <= 1
    &&& exists|i: int| 0 <= i < body.len() && is_ascii_digit(#[trigger] body[i])
}

/// Scanning text for number tokens: the literals found so far and the token
/// being read.
pub open spec fn scan_numbers(s: Seq<char>) -> (Seq<Seq<char>>, Seq<char>)
    decreases s.len(),
{
    if s.len() == 0 {
        (Seq::empty(), Seq::empty())
    } else {
        let (found, current) = scan_numbers(s.drop_last());
        let c = s.last();
        if is_number_char(c) {
            (found, current.push(c))
        } else if current.len() > 0 {
            (if is_decimal_literal(current) { found.push(current) } else { found }, Seq::empty())
        } else {
            (found, current)
        }
    }
}

/// The decimal literals of a text, in order: its maximal runs of digits, `-`
/// and `.` that read as numbers.
pub open spec fn numbers_in(s: Seq<char>) -> Seq<Seq<char>> {
    let (found, current) = scan_numbers(s);
    if is_decimal_literal(current) {
        found.push(current)
    } else {
        found
    }
}

fn is_literal(t: &Vec<char>) -> (r: bool)
    ensures
        r == is_decimal_literal(t@),
{
    let start: usize = if t.len() > 0 && t[0] == '-' { 1 } else { 0 };
    let ghost body = unsigned_part(t@);
    assert(body =~= t@.skip(start as int));
    let mut i: usize = start;
    let mut dots: usize = 0;
    let mut digit = false;
    assert(body.take(0) =~= Seq::<char>::empty());
    while i < t.len()
        invariant
            start <= i <= t@.len(),
            body == t@.skip(start as int),
            body == unsigned_part(t@),
            forall|j: int| 0 <= j < i - start ==> #[trigger] is_literal_char(body[j]),
            dots == count_char(body.take(i - start), '.'),
            digit == exists|j: int| 0 <= j < i - start && is_ascii_digit(#[trigger] body[j]),
            dots <= i,
        decreases t@.len() - i,
    {
        let c = t[i];
        assert(body[i - start] == c);
        assert(body.take(i - start + 1).drop_last() =~= body.take(i - start));
        if c == '.' {
            dots = dots + 1;
        } else if '0' <= c && c <= '9' {
            digit = true;
        } else {
            assert(c != '.');
            assert(!is_ascii_digit(c));
            assert(!is_literal_char(c));
            assert(!is_literal_char(body[i - start]));
            assert(!is_decimal_literal(t@)) by {
                let k = (i - start) as int;
                assert(0 <= k < unsigned_part(t@).len());
                assert(!is_literal_char(unsigned_part(t@)[k]));
            }
            return false;
        }
        i = i + 1;
    }
    assert(body.take(i - start) =~= body);
    digit && dots <= 1
}

/// The decimal literals of `value`, in order.
pub fn extract_numbers(value: &str) -> (r: Vec<String>)
    ensures
        r@.map_values(|s: String| s@) == numbers_in(value@),
{
    let chars = chars_of(value);
    let mut found: Vec<String> = Vec::new();
    let mut current: Vec<char> = Vec::new();
    let mut i: usize = 0;
    assert(chars@.take(0) =~= Seq::<char>::empty());
    assert(found@.map_values(|s: String| s@) =~= Seq::<Seq<char>>::empty());
    while i < chars.len()
        invariant
            i <= chars@.len(),
            chars@ == value@,
            (found@.map_values(|s: String| s@), current@) == scan_numbers(chars@.take(i as int)),
        decreases chars@.len() - i,
    {
        let c = chars[i];
        assert(chars@.take(i + 1).drop_last() =~= chars@.take(i as int));
        assert(chars@.take(i + 1).last() == c);
        if ('0' <= c && c <= '9') || c == '-' || c == '.' {
            current.push(c);
        } else if current.len() > 0 {
            if is_literal(&current) {
                let token = string_from_chars(current.as_slice());
                found.push(token);
                assert(found@.map_values(|s: String| s@) =~= old_found_view(found@).push(token@));
            }
            current = Vec::new();
            assert(current@ =~= Seq::<char>::empty());
        }
        i = i + 1;
    }
    assert(chars@.take(i as int) =~= chars@);
    if is_literal(&current) {
        let token = string_from_chars(current.as_slice());
        found.push(token);
        assert(found@.map_values(|s: String| s@) =~= old_found_view(found@).push(token@));
    }
    found
}

spec fn old_found_view(v: Seq<String>) -> Seq<Seq<char>> {
    v.drop_last().map_values(|s: String| s@)
}

/// The first decimal literal after the first occurrence of `marker`.
pub open spec fn number_after_marker(value: Seq<char>, marker: Seq<char>) -> Option<Seq<char>> {
    match split_once(value, marker) {
        Some((_, suffix)) => if numbers_in(suffix).len() > 0 {
            Some(numbers_in(suffix)[0])
        } else {
            None
        },
        None => None,
    }
}

/// Reads the first decimal literal after `marker`.
pub fn number_after(value: &str, marker: &str) -> (r: Option<String>)
    ensures
        opt_view(r) == number_after_marker(value@, marker@),
{
    let (_, suffix) = str_split_once(value, marker)?;
    let mut numbers = extract_numbers(suffix);
    if numbers.len() > 0 {
        let first = numbers.remove(0);
        Some(first)
    } else {
        None
    }
}

/// The text of an optional string.
pub open spec fn opt_view(o: Option<String>) -> Option<Seq<char>> {
    match o {
        Some(s) => Some(s@),
        None => None,
    }
}

/// `s` without its leading zeros.
pub open spec fn strip_zeros(s: Seq<char>) -> Seq<char>
    decreases s.len(),
{
    if s.len() > 0 && s[0] == '0' {
        strip_zeros(s.drop_first())
    } else {
        s
    }
}

/// The digits before the decimal point of a literal, sign removed.
pub open spec fn integer_digits(t: Seq<char>) -> Seq<char> {
    let body = unsigned_part(t);
    match find_index(body, seq!['.']) {
        Some(i) => body.take(i),
        None => body,
    }
}

/// The digits after the decimal point of a literal.
pub open spec fn fraction_digits(t: Seq<char>) -> Seq<char> {
    let body = unsigned_part(t);
    match find_index(body, seq!['.']) {
        Some(i) => body.skip(i + 1),
        None => Seq::empty(),
    }
}

/// Every character is `0`.
pub open spec fn all_zeros(s: Seq<char>) -> bool {
    forall|i: int| 0 <= i < s.len() ==> s[i] == '0'
}

/// The literal denotes exactly one.
pub open spec fn denotes_one(t: Seq<char>) -> bool {
    !(t.len() > 0 && t[0] == '-') && strip_zeros(integer_digits(t)) == seq!['1'] && all_zeros(
        fraction_digits(t),
    )
}

/// The literal denotes a whole number above one.
pub open spec fn denotes_whole_above_one(t: Seq<char>) -> bool {
    &&& !(t.len() > 0 && t[0] == '-')
    &&& all_zeros(fraction_digits(t))
    &&& strip_zeros(integer_digits(t)).len() > 0
    &&& strip_zeros(integer_digits(t)) != seq!['1']
}

/// A field as a modelling line declares it.
#[derive(Clone, Debug, PartialEq)]
pub struct ParsedField {
    pub native_name: String,
    pub field_type: FieldType,
    pub required: bool,
    pub unique: bool,
    pub email: bool,
    pub unit: Option<String>,
    pub range: Option<(String, String)>,
    pub type_was_defaulted: bool,
}

/// The name and the detail of a modelling line, split at its first colon
/// (full-width first, then ASCII); the whole line and no detail without one.
pub open spec fn name_and_detail(line: Seq<char>) -> (Seq<char>, Seq<char>) {
    match split_once(line, "："@) {
        Some(parts) => parts,
        None => match split_once(line, ":"@) {
            Some(parts) => parts,
            None => (line, Seq::empty()),
        },
    }
}

/// The field type a detail names; text when it names none.
pub open spec fn field_type_of(detail: Seq<char>) -> FieldType {
    if contains(detail, "密码"@) {
        FieldType::Password
    } else if contains(detail, "邮箱"@) {
        FieldType::Email
    } else if contains(detail, "字典"@) {
        FieldType::Dictionary
    } else if contains(detail, "小数"@) || contains(detail, "百分比"@) {
        FieldType::Decimal
    } else if contains(detail, "整数"@) {
        FieldType::Integer
    } else if contains(detail, "布尔"@) || contains(detail, "是否"@) {
        FieldType::Boolean
    } else if contains(detail, "时间"@) {
        FieldType::Timestamp
    } else if contains(detail, "JSON"@) {
        FieldType::Json
    } else {
        FieldType::String
    }
}

/// The words that name a field type.
pub open spec fn type_markers() -> Seq<Seq<char>> {
    seq!["小数"@, "百分比"@, "整数"@, "布尔"@, "是否"@, "时间"@, "JSON"@, "文本"@, "密码"@, "邮箱"@, "字典"@]
}

/// Some of `words` occurs in `s`.
pub open spec fn contains_any(s: Seq<char>, words: Seq<Seq<char>>) -> bool {
    exists|i: int| 0 <= i < words.len() && contains(s, #[trigger] words[i])
}

/// The units a field may declare.
pub open spec fn unit_names() -> Seq<Seq<char>> {
    seq!["摄氏度"@, "百分比"@, "伏"@, "安"@, "帕"@, "米"@]
}

/// The first trimmed part that is a known unit.
pub open spec fn first_unit(parts: Seq<Seq<char>>) -> Option<Seq<char>>
    decreases parts.len(),
{
    if parts.len() == 0 {
        None
    } else if unit_names().contains(trim(parts[0])) {
        Some(trim(parts[0]))
    } else {
        first_unit(parts.drop_first())
    }
}

/// The unit of a detail: the first of its comma-separated parts that names a unit.
pub open spec fn unit_of(detail: Seq<char>) -> Option<Seq<char>> {
    first_unit(split_any(detail, seq!['，', ',']))
}

/// The range of a detail that mentions `范围`: its first two decimal literals.
pub open spec fn range_of(detail: Seq<char>) -> Option<(Seq<char>, Seq<char>)> {
    if contains(detail, "范围"@) && numbers_in(detail).len() >= 2 {
        Some((numbers_in(detail)[0], numbers_in(detail)[1]))
    } else {
        None
    }
}

/// The content of a parsed field.
pub ghost struct ParsedFieldView {
    pub native_name: Seq<char>,
    pub field_type: FieldType,
    pub required: bool,
    pub unique: bool,
    pub email: bool,
    pub unit: Option<Seq<char>>,
    pub range: Option<(Seq<char>, Seq<char>)>,
    pub type_was_defaulted: bool,
}

impl View for ParsedField {
    type V = ParsedFieldView;

    open spec fn view(&self) -> ParsedFieldView {
        ParsedFieldView {
            native_name: self.native_name@,
            field_type: self.field_type,
            required: self.required,
            unique: self.unique,
            email: self.email,
            unit: opt_view(self.unit),
            range: match self.range {
                Some((a, b)) => Some((a@, b@)),
                None => None,
            },
            type_was_defaulted: self.type_was_defaulted,
        }
    }
}

/// The field a modelling line declares.
pub open spec fn parsed_field(line: Seq<char>) -> ParsedFieldView {
    let (name, detail) = name_and_detail(line);
    ParsedFieldView {
        native_name: trim(name),
        field_type: field_type_of(detail),
        required: contains(detail, "必填"@),
        unique: contains(detail, "唯一"@),
        email: contains(detail, "邮箱"@),
        unit: unit_of(detail),
        range: range_of(detail),
        type_was_defaulted: detail.len() == 0 || !contains_any(detail, type_markers()),
    }
}

fn type_marker(i: usize) -> (r: &'static str)
    requires
        i < 11,
    ensures
        r@ == type_markers()[i as int],
{
    match i {
        0 => "小数",
        1 => "百分比",
        2 => "整数",
        3 => "布尔",
        4 => "是否",
        5 => "时间",
        6 => "JSON",
        7 => "文本",
        8 => "密码",
        9 => "邮箱",
        _ => "字典",
    }
}

fn unit_name(i: usize) -> (r: &'static str)
    requires
        i < 6,
    ensures
        r@ == unit_names()[i as int],
{
    match i {
        0 => "摄氏度",
        1 => "百分比",
        2 => "伏",
        3 => "安",
        4 => "帕",
        _ => "米",
    }
}

fn is_unit_name(s: &str) -> (r: bool)
    ensures
        r == unit_names().contains(s@),
{
    let mut i: usize = 0;
    assert(unit_names().len() == 6);
    while i < 6
        invariant
            i <= 6,
            unit_names().len() == 6,
            forall|j: int| 0 <= j < i ==> unit_names()[j] != s@,
        decreases 6 - i,
    {
        if str_eq(unit_name(i), s) {
            return true;
        }
        i = i + 1;
    }
    false
}

fn field_type_from(detail: &str) -> (r: FieldType)
    ensures
        r == field_type_of(detail@),
{
    if str_contains(detail, "密码") {
        FieldType::Password
    } else if str_contains(detail, "邮箱") {
        FieldType::Email
    } else if str_contains(detail, "字典") {
        FieldType::Dictionary
    } else if str_contains(detail, "小数") || str_contains(detail, "百分比") {
        FieldType::Decimal
    } else if str_contains(detail, "整数") {
        FieldType::Integer
    } else if str_contains(detail, "布尔") || str_contains(detail, "是否") {
        FieldType::Boolean
    } else if str_contains(detail, "时间") {
        FieldType::Timestamp
    } else if str_contains(detail, "JSON") {
        FieldType::Json
    } else {
        FieldType::String
    }
}

fn names_a_type(detail: &str) -> (r: bool)
    ensures
        r == contains_any(detail@, type_markers()),
{
    let mut i: usize = 0;
    assert(type_markers().len() == 11);
    while i < 11
        invariant
            i <= 11,
            type_markers().len() == 11,
            forall|j: int| 0 <= j < i ==> !contains(detail@, #[trigger] type_markers()[j]),
        decreases 11 - i,
    {
        if str_contains(detail, type_marker(i)) {
            return true;
        }
        i = i + 1;
    }
    false
}

fn unit_from(detail: &str) -> (r: Option<String>)
    ensures
        opt_view(r) == unit_of(detail@),
{
    let separators = ['，', ','];
    assert(separators@ =~= seq!['，', ',']);
    let parts = str_split_any(detail, &separators);
    let ghost all = split_any(detail@, seq!['，', ',']);
    let mut i: usize = 0;
    assert(all.skip(0) =~= all);
    while i < parts.len()
        invariant
            i <= parts@.len(),
            parts@.len() == all.len(),
            all == split_any(detail@, seq!['，', ',']),
            forall|j: int| 0 <= j < parts@.len() ==> #[trigger] parts@[j]@ == all[j],
            first_unit(all) == first_unit(all.skip(i as int)),
        decreases parts@.len() - i,
    {
        let part = str_trim(parts[i]);
        assert(parts@[i as int]@ == all[i as int]);
        assert(all.skip(i as int)[0] == all[i as int]);
        assert(all.skip(i as int).drop_first() =~= all.skip(i + 1));
        if is_unit_name(part) {
            assert(first_unit(all.skip(i as int)) == Some(trim(all[i as int])));
            let r = owned(part);
            assert(first_unit(all) == Some(trim(all[i as int])));
            assert(part@ == trim(all[i as int]));
            assert(r@ == part@);
            assert(unit_of(detail@) == first_unit(all));
            assert(unit_of(detail@) == Some(r@));
            return Some(r);
        }
        i = i + 1;
    }
    assert(all.skip(i as int) =~= Seq::<Seq<char>>::empty());
    None
}

/// Reads the field a modelling line declares.
pub fn parse_field(line: &str) -> (r: ParsedField)
    ensures
        r@ == parsed_field(line@),
{
    let (name, detail) = match str_split_once(line, "：") {
        Some(parts) => parts,
        None => match str_split_once(line, ":") {
            Some(parts) => parts,
            None => (line, ""),
        },
    };
    proof {
        reveal_strlit("");
        assert(""@ =~= Seq::<char>::empty());
        assert((name@, detail@) == name_and_detail(line@));
    }
    let field_type = field_type_from(detail);
    let type_was_defaulted = detail.is_empty() || !names_a_type(detail);
    let unit = unit_from(detail);
    let range = if str_contains(detail, "范围") {
        let mut numbers = extract_numbers(detail);
        if numbers.len() >= 2 {
            let ghost ns = numbers@;
            let minimum = numbers.remove(0);
            let maximum = numbers.remove(0);
            assert(minimum@ == ns.map_values(|s: String| s@)[0]);
            assert(maximum@ == ns.map_values(|s: String| s@)[1]);
            Some((minimum, maximum))
        } else {
            None
        }
    } else {
        None
    };
    assert(opt_view(unit) == unit_of(detail@));
    assert(match range {
        Some((a, b)) => Some((a@, b@)),
        None => None,
    } == range_of(detail@));
    ParsedField {
        native_name: owned(str_trim(name)),
        field_type,
        required: str_contains(detail, "必填"),
        unique: str_contains(detail, "唯一"),
        email: str_contains(detail, "邮箱"),
        unit,
        range,
        type_was_defaulted,
    }
}

/// The source key stem of a fixture field: the field code (`temperature`
/// shortened to `temp`), then `_x<n>` for a whole divisor `n` above one,
/// otherwise `_raw`.
pub open spec fn fixture_stem(field_code: Seq<char>, divisor: Option<Seq<char>>) -> Seq<char> {
    let prefix = if field_code == "temperature"@ {
        "temp"@
    } else {
        field_code
    };
    match divisor {
        Some(d) => if denotes_whole_above_one(d) {
            prefix + "_x"@ + strip_zeros(integer_digits(d))
        } else {
            prefix + "_raw"@
        },
        None => prefix + "_raw"@,
    }
}

/// The type a modelling line declares follows the first type word of its
/// detail (the text after its colon) in this order of precedence: 密码 gives a
/// password, 邮箱 an e-mail, 字典 a dictionary, 小数 or 百分比 a decimal, 整数
/// an integer, 布尔 or 是否 a boolean, 时间 a timestamp, JSON a JSON value;
/// a detail naming none of them gives text.  A detail that names no type word
/// at all is marked as defaulted, and one that names a type word is not.
pub proof fn lemma_field_type_follows_words(line: Seq<char>)
    ensures
        ({
            let d = name_and_detail(line).1;
            let t = parsed_field(line).field_type;
            let password = contains(d, "密码"@);
            let email = contains(d, "邮箱"@);
            let dictionary = contains(d, "字典"@);
            let decimal = contains(d, "小数"@) || contains(d, "百分比"@);
            let integer = contains(d, "整数"@);
            let boolean = contains(d, "布尔"@) || contains(d, "是否"@);
            let time = contains(d, "时间"@);
            let json = contains(d, "JSON"@);
            &&& password ==> t == FieldType::Password
            &&& !password && email ==> t == FieldType::Email
            &&& !password && !email && dictionary ==> t == FieldType::Dictionary
            &&& !password && !email && !dictionary && decimal ==> t == FieldType::Decimal
            &&& !password && !email && !dictionary && !decimal && integer ==> t == FieldType::Integer
            &&& !password && !email && !dictionary && !decimal && !integer && boolean ==> t == FieldType::Boolean
            &&& !password && !email && !dictionary && !decimal && !integer && !boolean && time ==> t
                == FieldType::Timestamp
            &&& !password && !email && !dictionary && !decimal && !integer && !boolean && !time && json ==> t
                == FieldType::Json
            &&& !password && !email && !dictionary && !decimal && !integer && !boolean && !time && !json ==> t
                == FieldType::String
            &&& (password || email || dictionary || decimal || integer || boolean || time || json || contains(d, "文本"@))
                ==> !parsed_field(line).type_was_defaulted
            &&& !(password || email || dictionary || decimal || integer || boolean || time || json || contains(d, "文本"@))
                ==> parsed_field(line).type_was_defaulted
            &&& parsed_field(line).required == contains(d, "必填"@)
            &&& parsed_field(line).unique == contains(d, "唯一"@)
            &&& parsed_field(line).email == contains(d, "邮箱"@)
        }),
{
    let d = name_and_detail(line).1;
    let words = type_markers();
    assert(words.len() == 11);
    assert(words[0] == "小数"@ && words[1] == "百分比"@ && words[2] == "整数"@ && words[3] == "布尔"@);
    assert(words[4] == "是否"@ && words[5] == "时间"@ && words[6] == "JSON"@ && words[7] == "文本"@);
    assert(words[8] == "密码"@ && words[9] == "邮箱"@ && words[10] == "字典"@);
    let named = exists|k: int| 0 <= k < 11 && contains(d, #[trigger] words[k]);
    if named {
        let k = choose|k: int| 0 <= k < 11 && contains(d, #[trigger] words[k]);
        lemma_find_index_bounds(d, words[k]);
        reveal_strlit("小数");
        reveal_strlit("百分比");
        reveal_strlit("整数");
        reveal_strlit("布尔");
        reveal_strlit("是否");
        reveal_strlit("时间");
        reveal_strlit("JSON");
        reveal_strlit("文本");
        reveal_strlit("密码");
        reveal_strlit("邮箱");
        reveal_strlit("字典");
        assert(words[k].len() > 0);
        assert(contains_any(d, words));
    } else {
        assert forall|k: int| 0 <= k < words.len() implies !contains(d, #[trigger] words[k]) by {}
    }
}

} // verus!
