//! The outline of a mother-tongue source: its titled sections and the list lines
//! under each of them.
use vstd::prelude::*;

use crate::text::{
    digit_prefix_len, is_ascii_digit, owned, segments, split_once, str_split_once, str_strip_prefix,
    str_trim, str_trim_start, str_trim_start_any, strip_prefix, trim, trim_start, trim_start_any,
};
use vstd::string::StrSliceExecFns;

verus! {

/// The value after a section title: the line without the title, its leading
/// colons (full-width or ASCII) and surrounding white space; none when the line
/// does not start with the title.
pub open spec fn section_value(line: Seq<char>, title: Seq<char>) -> Option<Seq<char>> {
    match strip_prefix(line, title) {
        Some(rest) => Some(trim(trim_start_any(rest, seq!['：', ':']))),
        None => None,
    }
}

/// Reads the value after a section title.
pub fn section_title<'a>(line: &'a str, title: &str) -> (r: Option<&'a str>)
    ensures
        match r {
            Some(v) => section_value(line@, title@) == Some(v@),
            None => section_value(line@, title@) is None,
        },
{
    let suffix = str_strip_prefix(line, title)?;
    let colons = ['：', ':'];
    assert(colons@ =~= seq!['：', ':']);
    let stripped = str_trim_start_any(suffix, &colons);
    Some(str_trim(stripped))
}

/// A list line without its leading number and the `.` or `、` after it.
pub open spec fn list_content(line: Seq<char>) -> Seq<char> {
    let line = trim_start(line);
    let suffix = line.skip(digit_prefix_len(line) as int);
    match strip_prefix(suffix, "."@) {
        Some(rest) => trim(rest),
        None => match strip_prefix(suffix, "、"@) {
            Some(rest) => trim(rest),
            None => trim(suffix),
        },
    }
}

proof fn lemma_digit_prefix(s: Seq<char>, k: int)
    requires
        0 <= k <= s.len(),
        forall|j: int| 0 <= j < k ==> is_ascii_digit(#[trigger] s[j]),
    ensures
        digit_prefix_len(s) == k + digit_prefix_len(s.skip(k)),
    decreases k,
{
    if k == 0 {
        assert(s.skip(0) =~= s);
    } else {
        assert(is_ascii_digit(s[0]));
        assert(s.skip(1) =~= s.drop_first());
        assert(s.drop_first().skip(k - 1) =~= s.skip(k));
        assert forall|j: int| 0 <= j < k - 1 implies is_ascii_digit(#[trigger] s.drop_first()[j]) by {
            assert(s.drop_first()[j] == s[j + 1]);
        }
        lemma_digit_prefix(s.drop_first(), k - 1);
    }
}

/// Removes the leading list number (`12.` or `3、`) of a line, without touching
/// its content.
pub fn strip_list_marker(line: &str) -> (r: &str)
    ensures
        r@ == list_content(line@),
{
    let line = str_trim_start(line);
    let n = line.unicode_len();
    let mut k: usize = 0;
    while k < n && is_digit_char(line.get_char(k))
        invariant
            k <= n,
            n == line@.len(),
            forall|j: int| 0 <= j < k ==> is_ascii_digit(#[trigger] line@[j]),
        decreases n - k,
    {
        k = k + 1;
    }
    proof {
        lemma_digit_prefix(line@, k as int);
        if k < n {
            assert(line@.skip(k as int)[0] == line@[k as int]);
        }
        assert(digit_prefix_len(line@.skip(k as int)) == 0);
    }
    let suffix = line.substring_char(k, n);
    assert(suffix@ =~= line@.skip(k as int));
    match str_strip_prefix(suffix, ".") {
        Some(rest) => str_trim(rest),
        None => match str_strip_prefix(suffix, "、") {
            Some(rest) => str_trim(rest),
            None => str_trim(suffix),
        },
    }
}

fn is_digit_char(c: char) -> (r: bool)
    ensures
        r == is_ascii_digit(c),
{
    '0' <= c && c <= '9'
}

/// The section a line of the source belongs to.
#[derive(Clone, Copy, Debug, PartialEq, Eq, Structural)]
pub enum SourceSection {
    Untitled,
    Requirements,
    Modeling,
    Acquisition,
    Operations,
    View,
    Navigation,
    Permissions,
}

/// A view section: its name and its list lines.
#[derive(Clone, Debug, PartialEq, Eq)]
pub struct ParsedView {
    pub native_name: String,
    pub lines: Vec<String>,
}

/// The text of a list of strings.
pub open spec fn texts(v: Seq<String>) -> Seq<Seq<char>> {
    v.map_values(|s: String| s@)
}

/// The text of the views.
pub open spec fn views_text(v: Seq<ParsedView>) -> Seq<(Seq<char>, Seq<Seq<char>>)> {
    v.map_values(|p: ParsedView| (p.native_name@, texts(p.lines@)))
}

/// The outline as text.
pub ghost struct OutlineView {
    pub section: SourceSection,
    pub domain: Option<Seq<char>>,
    pub model: Option<Seq<char>>,
    pub requirements: Seq<Seq<char>>,
    pub fields: Seq<Seq<char>>,
    pub acquisition: Seq<Seq<char>>,
    pub operations: Seq<Seq<char>>,
    pub views: Seq<(Seq<char>, Seq<Seq<char>>)>,
    pub navigation: Seq<Seq<char>>,
    pub permissions: Seq<Seq<char>>,
}

/// The outline before any line was read.
pub open spec fn empty_outline() -> OutlineView {
    OutlineView {
        section: SourceSection::Untitled,
        domain: None,
        model: None,
        requirements: Seq::empty(),
        fields: Seq::empty(),
        acquisition: Seq::empty(),
        operations: Seq::empty(),
        views: Seq::empty(),
        navigation: Seq::empty(),
        permissions: Seq::empty(),
    }
}

/// Reading one raw line.  Blank lines are skipped.  A section title (`领域`,
/// `需求`, `建模`, `数据获取`, `操作`, `界面`, `导航`, `权限`, tried in that order)
/// switches the section and may carry a value; any other line is a list line,
/// recorded without its list number under the current section.
pub open spec fn read_line(o: OutlineView, raw: Seq<char>) -> OutlineView {
    let line = trim(raw);
    if line.len() == 0 {
        o
    } else if let Some(v) = section_value(line, "领域"@) {
        OutlineView {
            domain: if v.len() > 0 { Some(v) } else { o.domain },
            section: SourceSection::Untitled,
            ..o
        }
    } else if let Some(v) = section_value(line, "需求"@) {
        OutlineView {
            section: SourceSection::Requirements,
            requirements: if v.len() > 0 { o.requirements.push(v) } else { o.requirements },
            ..o
        }
    } else if let Some(v) = section_value(line, "建模"@) {
        OutlineView {
            section: SourceSection::Modeling,
            model: if v.len() > 0 { Some(v) } else { o.model },
            ..o
        }
    } else if section_value(line, "数据获取"@) is Some {
        OutlineView { section: SourceSection::Acquisition, ..o }
    } else if section_value(line, "操作"@) is Some {
        OutlineView { section: SourceSection::Operations, ..o }
    } else if let Some(v) = section_value(line, "界面"@) {
        if v.len() > 0 {
            OutlineView { section: SourceSection::View, views: o.views.push((v, Seq::empty())), ..o }
        } else {
            o
        }
    } else if section_value(line, "导航"@) is Some {
        OutlineView { section: SourceSection::Navigation, ..o }
    } else if section_value(line, "权限"@) is Some {
        OutlineView { section: SourceSection::Permissions, ..o }
    } else {
        let content = list_content(line);
        match o.section {
            SourceSection::Requirements => OutlineView { requirements: o.requirements.push(content), ..o },
            SourceSection::Modeling => OutlineView { fields: o.fields.push(content), ..o },
            SourceSection::Acquisition => OutlineView { acquisition: o.acquisition.push(content), ..o },
            SourceSection::Operations => OutlineView { operations: o.operations.push(content), ..o },
            SourceSection::View => if o.views.len() > 0 {
                let last = o.views.last();
                OutlineView { views: o.views.drop_last().push((last.0, last.1.push(content))), ..o }
            } else {
                o
            },
            SourceSection::Navigation => OutlineView { navigation: o.navigation.push(content), ..o },
            SourceSection::Permissions => OutlineView { permissions: o.permissions.push(content), ..o },
            SourceSection::Untitled => o,
        }
    }
}

/// Reading lines in turn from outline `o`.
pub open spec fn read_lines(o: OutlineView, lines: Seq<Seq<char>>) -> OutlineView
    decreases lines.len(),
{
    if lines.len() == 0 {
        o
    } else {
        read_lines(read_line(o, lines[0]), lines.drop_first())
    }
}

/// The outline of a source text: its lines read in turn.
pub open spec fn outline_of(text: Seq<char>) -> OutlineView {
    read_lines(empty_outline(), segments(text))
}

/// The sections of a mother-tongue source.
pub struct SourceOutline {
    /// The section the next list line belongs to.
    pub section: SourceSection,
    pub domain_name: Option<String>,
    pub model_name: Option<String>,
    pub requirements: Vec<String>,
    pub field_lines: Vec<String>,
    pub acquisition_lines: Vec<String>,
    pub operation_lines: Vec<String>,
    pub views: Vec<ParsedView>,
    pub navigation_lines: Vec<String>,
    pub permission_lines: Vec<String>,
}

/// The text of an optional string.
pub open spec fn opt_text(o: Option<String>) -> Option<Seq<char>> {
    match o {
        Some(s) => Some(s@),
        None => None,
    }
}

impl View for SourceOutline {
    type V = OutlineView;

    open spec fn view(&self) -> OutlineView {
        OutlineView {
            section: self.section,
            domain: opt_text(self.domain_name),
            model: opt_text(self.model_name),
            requirements: texts(self.requirements@),
            fields: texts(self.field_lines@),
            acquisition: texts(self.acquisition_lines@),
            operations: texts(self.operation_lines@),
            views: views_text(self.views@),
            navigation: texts(self.navigation_lines@),
            permissions: texts(self.permission_lines@),
        }
    }
}

fn push_text(v: &mut Vec<String>, s: &str)
    ensures
        texts(final(v)@) == texts(old(v)@).push(s@),
{
    v.push(owned(s));
    assert(texts(v@) =~= texts(old(v)@).push(s@));
}

impl SourceOutline {
    fn empty() -> (r: Self)
        ensures
            r@ == empty_outline(),
    {
        let r = SourceOutline {
            section: SourceSection::Untitled,
            domain_name: None,
            model_name: None,
            requirements: Vec::new(),
            field_lines: Vec::new(),
            acquisition_lines: Vec::new(),
            operation_lines: Vec::new(),
            views: Vec::new(),
            navigation_lines: Vec::new(),
            permission_lines: Vec::new(),
        };
        assert(r@.requirements =~= Seq::<Seq<char>>::empty());
        assert(r@.fields =~= Seq::<Seq<char>>::empty());
        assert(r@.acquisition =~= Seq::<Seq<char>>::empty());
        assert(r@.operations =~= Seq::<Seq<char>>::empty());
        assert(r@.navigation =~= Seq::<Seq<char>>::empty());
        assert(r@.permissions =~= Seq::<Seq<char>>::empty());
        assert(r@.views =~= Seq::<(Seq<char>, Seq<Seq<char>>)>::empty());
        r
    }

    fn read(&mut self, raw: &str)
        ensures
            final(self)@ == read_line(old(self)@, raw@),
    {
        let line = str_trim(raw);
        if line.is_empty() {
            return;
        }
        if let Some(v) = section_title(line, "领域") {
            if !v.is_empty() {
                self.domain_name = Some(owned(v));
            }
            self.section = SourceSection::Untitled;
            return;
        }
        if let Some(v) = section_title(line, "需求") {
            self.section = SourceSection::Requirements;
            if !v.is_empty() {
                push_text(&mut self.requirements, v);
            }
            return;
        }
        if let Some(v) = section_title(line, "建模") {
            self.section = SourceSection::Modeling;
            if !v.is_empty() {
                self.model_name = Some(owned(v));
            }
            return;
        }
        if section_title(line, "数据获取").is_some() {
            self.section = SourceSection::Acquisition;
            return;
        }
        if section_title(line, "操作").is_some() {
            self.section = SourceSection::Operations;
            return;
        }
        if let Some(v) = section_title(line, "界面") {
            if !v.is_empty() {
                self.views.push(ParsedView { native_name: owned(v), lines: Vec::new() });
                assert(texts(Seq::<String>::empty()) =~= Seq::<Seq<char>>::empty());
                assert(views_text(self.views@) =~= views_text(old(self).views@).push((v@, Seq::<Seq<char>>::empty())));
                self.section = SourceSection::View;
            }
            return;
        }
        if section_title(line, "导航").is_some() {
            self.section = SourceSection::Navigation;
            return;
        }
        if section_title(line, "权限").is_some() {
            self.section = SourceSection::Permissions;
            return;
        }
        let content = strip_list_marker(line);
        match self.section {
            SourceSection::Requirements => push_text(&mut self.requirements, content),
            SourceSection::Modeling => push_text(&mut self.field_lines, content),
            SourceSection::Acquisition => push_text(&mut self.acquisition_lines, content),
            SourceSection::Operations => push_text(&mut self.operation_lines, content),
            SourceSection::View => {
                let n = self.views.len();
                if n > 0 {
                    let mut last = self.views.pop().unwrap();
                    let ghost before_lines = last.lines@;
                    push_text(&mut last.lines, content);
                    self.views.push(last);
                    assert(views_text(self.views@) =~= views_text(old(self).views@).drop_last().push(
                        (old(self)@.views.last().0, old(self)@.views.last().1.push(content@)),
                    ));
                }
            },
            SourceSection::Navigation => push_text(&mut self.navigation_lines, content),
            SourceSection::Permissions => push_text(&mut self.permission_lines, content),
            SourceSection::Untitled => {},
        }
    }
}

/// Reads the outline of a source text, line by line.
pub fn scan_source(text: &str) -> (r: SourceOutline)
    ensures
        r@ == outline_of(text@),
{
    let mut outline = SourceOutline::empty();
    let mut rest: &str = text;
    loop
        invariant
            read_lines(outline@, segments(rest@)) == outline_of(text@),
        decreases rest@.len(),
    {
        let ghost before = outline@;
        match str_split_once(rest, "\n") {
            Some((line, tail)) => {
                proof {
                    reveal_strlit("\n");
                    assert("\n"@ =~= seq!['\n']);
                    crate::text::lemma_find_index_bounds(rest@, seq!['\n']);
                    assert(segments(rest@) == seq![line@] + segments(tail@));
                    assert((seq![line@] + segments(tail@)).drop_first() =~= segments(tail@));
                }
                outline.read(line);
                rest = tail;
            },
            None => {
                proof {
                    reveal_strlit("\n");
                    assert("\n"@ =~= seq!['\n']);
                    assert(segments(rest@) == seq![rest@]);
                    assert(seq![rest@].drop_first() =~= Seq::<Seq<char>>::empty());
                }
                outline.read(rest);
                assert(read_lines(before, seq![rest@]) == read_lines(read_line(before, rest@), seq![rest@].drop_first()));
                assert(read_lines(outline@, Seq::<Seq<char>>::empty()) == outline@);
                return outline;
            },
        }
    }
}

} // verus!
