//! Inference of the data-acquisition section: the capability the data comes
//! from and the binding of each field to a raw source key.
use vstd::prelude::*;

use crate::blueprint::{CapabilityRequirement, FieldBinding, FieldDefinition, ValueTransform};
use crate::descriptor::{DescriptorView, SemanticDescriptor};
use crate::diagnostic::{diagnostics_view, error_view, Diagnostic, DiagnosticView};
use crate::inference::factory::{describe_each, lemma_describe_each_len, DescriptorFactory};
use crate::inference::fields::{
    all_zeros, denotes_one, denotes_whole_above_one, fixture_stem, fraction_digits,
    integer_digits, number_after_marker, number_after, opt_view, strip_zeros, unsigned_part,
};
use crate::inference::outline::texts;
use crate::text::{
    concat2, concat3, contains, find_index, lemma_find_index_bounds, owned, split_once, starts_with,
    str_contains, str_eq, str_split_once, str_starts_with, str_strip_prefix,
};
use vstd::string::StrSliceExecFns;

verus! {

/// A text starts with the minus sign exactly when its first character is one.
proof fn lemma_dash_prefix(t: Seq<char>)
    ensures
        starts_with(t, "-"@) <==> (t.len() > 0 && t[0] == '-'),
        "-"@.len() == 1,
{
    reveal_strlit("-");
    assert("-"@ =~= seq!['-']);
    if t.len() > 0 {
        assert(t.take(1)[0] == t[0]);
        if t[0] == '-' {
            assert(t.take(1) =~= "-"@);
        }
    }
}

/// A literal without its minus sign.
fn unsigned_text(t: &str) -> (r: &str)
    ensures
        r@ == unsigned_part(t@),
{
    proof {
        lemma_dash_prefix(t@);
    }
    match str_strip_prefix(t, "-") {
        Some(rest) => {
            assert(rest@ =~= t@.drop_first());
            rest
        },
        None => t,
    }
}

/// The integer and fraction digits of a literal.
fn literal_digits(t: &str) -> (r: (&str, &str))
    ensures
        r.0@ == integer_digits(t@),
        r.1@ == fraction_digits(t@),
{
    let body = unsigned_text(t);
    proof {
        reveal_strlit(".");
        reveal_strlit("");
        assert("."@ =~= seq!['.']);
        assert(""@ =~= Seq::<char>::empty());
    }
    match str_split_once(body, ".") {
        Some((int_part, frac_part)) => (int_part, frac_part),
        None => (body, ""),
    }
}

/// `s` without its leading zeros.
fn strip_leading_zeros(s: &str) -> (r: &str)
    ensures
        r@ == strip_zeros(s@),
{
    let n = s.unicode_len();
    let mut k: usize = 0;
    assert(s@.skip(0) =~= s@);
    while k < n && s.get_char(k) == '0'
        invariant
            k <= n,
            n == s@.len(),
            strip_zeros(s@) == strip_zeros(s@.skip(k as int)),
        decreases n - k,
    {
        assert(s@.skip(k as int).drop_first() =~= s@.skip(k + 1));
        k = k + 1;
    }
    let r = s.substring_char(k, n);
    assert(r@ =~= s@.skip(k as int));
    r
}

fn is_all_zeros(s: &str) -> (r: bool)
    ensures
        r == all_zeros(s@),
{
    let n = s.unicode_len();
    let mut k: usize = 0;
    while k < n
        invariant
            k <= n,
            n == s@.len(),
            forall|j: int| 0 <= j < k ==> s@[j] == '0',
        decreases n - k,
    {
        if s.get_char(k) != '0' {
            return false;
        }
        k = k + 1;
    }
    true
}

fn is_negative(t: &str) -> (r: bool)
    ensures
        r == (t@.len() > 0 && t@[0] == '-'),
{
    proof {
        lemma_dash_prefix(t@);
    }
    str_starts_with(t, "-")
}

/// Whether a literal denotes exactly one.
pub fn literal_is_one(t: &str) -> (r: bool)
    ensures
        r == denotes_one(t@),
{
    let (int_part, frac_part) = literal_digits(t);
    let stripped = strip_leading_zeros(int_part);
    proof {
        reveal_strlit("1");
        assert("1"@ =~= seq!['1']);
    }
    !is_negative(t) && str_eq(stripped, "1") && is_all_zeros(frac_part)
}

/// The source key stem of a fixture field.
pub fn fixture_source_stem(field_code: &str, divisor: Option<&str>) -> (r: String)
    ensures
        r@ == fixture_stem(
            field_code@,
            match divisor {
                Some(d) => Some(d@),
                None => None,
            },
        ),
{
    let prefix = if str_eq(field_code, "temperature") {
        "temp"
    } else {
        field_code
    };
    match divisor {
        Some(d) => {
            let (int_part, frac_part) = literal_digits(d);
            let stripped = strip_leading_zeros(int_part);
            proof {
                reveal_strlit("1");
                assert("1"@ =~= seq!['1']);
            }
            if !is_negative(d) && is_all_zeros(frac_part) && !stripped.is_empty() && !str_eq(stripped, "1") {
                concat3(prefix, "_x", stripped)
            } else {
                concat2(prefix, "_raw")
            }
        },
        None => concat2(prefix, "_raw"),
    }
}

/// The text of a value transformation: the divisor for a division, none for identity.
pub open spec fn transform_view(t: ValueTransform) -> Option<Seq<char>> {
    match t {
        ValueTransform::Identity => None,
        ValueTransform::Divide { divisor } => Some(divisor@),
    }
}

/// The transformation a divisor asks for: identity when there is none or it is one.
pub open spec fn transform_for(divisor: Option<Seq<char>>) -> Option<Seq<char>> {
    match divisor {
        Some(d) => if denotes_one(d) {
            None
        } else {
            Some(d)
        },
        None => None,
    }
}

/// The first line that mentions the fixture capability.
pub open spec fn capability_line(lines: Seq<Seq<char>>) -> Option<int>
    decreases lines.len(),
{
    if lines.len() == 0 {
        None
    } else if contains(lines[0], "模拟采集"@) {
        Some(0)
    } else {
        match capability_line(lines.drop_first()) {
            Some(k) => Some(k + 1),
            None => None,
        }
    }
}

/// The line that maps a field: the first that starts with its name and speaks of its raw value.
pub open spec fn mapping_line(lines: Seq<Seq<char>>, name: Seq<char>) -> Option<Seq<char>>
    decreases lines.len(),
{
    if lines.len() == 0 {
        None
    } else if starts_with(lines[0], name) && contains(lines[0], "原值"@) {
        Some(lines[0])
    } else {
        mapping_line(lines.drop_first(), name)
    }
}

/// The fields that have a mapping line, each with that line.
pub open spec fn mapped_fields(fields: Seq<FieldDefinition>, lines: Seq<Seq<char>>) -> Seq<(FieldDefinition, Seq<char>)>
    decreases fields.len(),
{
    if fields.len() == 0 {
        Seq::empty()
    } else {
        let rest = mapped_fields(fields.drop_last(), lines);
        let f = fields.last();
        match mapping_line(lines, f.descriptor.native_name@) {
            Some(line) => rest.push((f, line)),
            None => rest,
        }
    }
}

/// One error per field without a mapping line, in field order.
pub open spec fn unmapped_errors(fields: Seq<FieldDefinition>, lines: Seq<Seq<char>>) -> Seq<DiagnosticView>
    decreases fields.len(),
{
    if fields.len() == 0 {
        Seq::empty()
    } else {
        let rest = unmapped_errors(fields.drop_last(), lines);
        let f = fields.last();
        match mapping_line(lines, f.descriptor.native_name@) {
            Some(_) => rest,
            None => rest.push(error_view(f.descriptor.native_name@, "没有找到字段对应的数据获取映射。"@)),
        }
    }
}

/// The descriptor request for the raw source of a mapped field.
pub open spec fn source_request(m: (FieldDefinition, Seq<char>)) -> (Seq<char>, Option<Seq<char>>) {
    (
        m.0.descriptor.native_name@ + "原值"@,
        Some(fixture_stem(m.0.descriptor.code@, number_after_marker(m.1, "除以"@))),
    )
}

/// The descriptor requests of the acquisition section: the capability (when a
/// line mentions it), then the raw source of each mapped field.
pub open spec fn acquisition_requests(fields: Seq<FieldDefinition>, lines: Seq<Seq<char>>) -> Seq<(Seq<char>, Option<Seq<char>>)> {
    let capability = if capability_line(lines) is Some {
        seq![("模拟采集"@, Some("fixture_map"@))]
    } else {
        Seq::empty()
    };
    capability + mapped_fields(fields, lines).map_values(|m: (FieldDefinition, Seq<char>)| source_request(m))
}

/// The result of the acquisition inference matches the section's lines.
pub open spec fn acquisition_match(
    owner: SemanticDescriptor,
    fields: Seq<FieldDefinition>,
    lines: Seq<Seq<char>>,
    capabilities: Seq<CapabilityRequirement>,
    bindings: Seq<FieldBinding>,
    descs: Seq<DescriptorView>,
) -> bool {
    let offset: int = if capability_line(lines) is Some { 1 } else { 0 };
    let mapped = mapped_fields(fields, lines);
    &&& capabilities.len() == offset
    &&& (capability_line(lines) matches Some(k) ==> capabilities[0].descriptor@ == descs[0]
        && capabilities[0].source_phrase@ == lines[k])
    &&& bindings.len() == mapped.len()
    &&& forall|i: int|
        0 <= i < bindings.len() ==> {
            &&& (#[trigger] bindings[i]).owner == owner
            &&& bindings[i].field == mapped[i].0.descriptor
            &&& bindings[i].source@ == descs[offset + i]
            &&& transform_view(bindings[i].transform) == transform_for(number_after_marker(mapped[i].1, "除以"@))
        }
}

fn find_capability_line(lines: &Vec<String>) -> (r: Option<usize>)
    ensures
        match r {
            Some(k) => capability_line(texts(lines@)) == Some(k as int) && k < lines@.len(),
            None => capability_line(texts(lines@)) is None,
        },
{
    let ghost ls = texts(lines@);
    let mut i: usize = 0;
    assert(ls.skip(0) =~= ls);
    while i < lines.len()
        invariant
            i <= lines@.len(),
            ls == texts(lines@),
            capability_line(ls) == match capability_line(ls.skip(i as int)) {
                Some(k) => Some(k + i),
                None => None::<int>,
            },
        decreases lines@.len() - i,
    {
        assert(ls.skip(i as int)[0] == lines@[i as int]@);
        assert(ls.skip(i as int).drop_first() =~= ls.skip(i + 1));
        if str_contains(lines[i].as_str(), "模拟采集") {
            return Some(i);
        }
        i = i + 1;
    }
    assert(ls.skip(i as int) =~= Seq::<Seq<char>>::empty());
    None
}

fn find_mapping_line<'a>(lines: &'a Vec<String>, name: &str) -> (r: Option<&'a String>)
    ensures
        match r {
            Some(l) => mapping_line(texts(lines@), name@) == Some(l@),
            None => mapping_line(texts(lines@), name@) is None,
        },
{
    let ghost ls = texts(lines@);
    let mut i: usize = 0;
    assert(ls.skip(0) =~= ls);
    while i < lines.len()
        invariant
            i <= lines@.len(),
            ls == texts(lines@),
            mapping_line(ls, name@) == mapping_line(ls.skip(i as int), name@),
        decreases lines@.len() - i,
    {
        assert(ls.skip(i as int)[0] == lines@[i as int]@);
        assert(ls.skip(i as int).drop_first() =~= ls.skip(i + 1));
        let line = &lines[i];
        if str_starts_with(line.as_str(), name) && str_contains(line.as_str(), "原值") {
            return Some(line);
        }
        i = i + 1;
    }
    assert(ls.skip(i as int) =~= Seq::<Seq<char>>::empty());
    None
}

/// Infers the data source capability and the field bindings from the
/// acquisition lines, reporting fields without a mapping and a missing source.
pub fn infer_acquisition(
    owner: &SemanticDescriptor,
    fields: &Vec<FieldDefinition>,
    lines: &Vec<String>,
    factory: &mut DescriptorFactory,
    diagnostics: &mut Vec<Diagnostic>,
) -> (r: (Vec<CapabilityRequirement>, Vec<FieldBinding>))
    ensures
        ({
            let (f, descs) = describe_each(old(factory)@, acquisition_requests(fields@, texts(lines@)));
            &&& final(factory)@ == f
            &&& acquisition_match(*owner, fields@, texts(lines@), r.0@, r.1@, descs)
            &&& diagnostics_view(final(diagnostics)@) == diagnostics_view(old(diagnostics)@) + unmapped_errors(
                fields@,
                texts(lines@),
            ) + if capability_line(texts(lines@)) is Some {
                Seq::<DiagnosticView>::empty()
            } else {
                seq![error_view("数据获取"@, "没有找到可解析的数据源能力；请用母语说明数据来自哪里。"@)]
            }
        }),
{
    let ghost ls = texts(lines@);
    let ghost requests = acquisition_requests(fields@, ls);
    let ghost f0 = factory@;
    let ghost d0 = diagnostics_view(diagnostics@);
    let mut capabilities: Vec<CapabilityRequirement> = Vec::new();
    let found = find_capability_line(lines);
    let offset: usize = if found.is_some() { 1 } else { 0 };
    let ghost mapped_all = mapped_fields(fields@, ls);
    assert(requests.take(offset as int) =~= if capability_line(ls) is Some {
        seq![("模拟采集"@, Some("fixture_map"@))]
    } else {
        Seq::empty()
    });
    assert(requests.take(0) =~= Seq::<(Seq<char>, Option<Seq<char>>)>::empty());
    if let Some(k) = found {
        let ghost (fa, ds) = describe_each(f0, requests.take(0));
        assert(requests.take(1).drop_last() =~= requests.take(0));
        let descriptor = factory.describe("模拟采集", Some("fixture_map"));
        capabilities.push(CapabilityRequirement { descriptor, source_phrase: lines[k].clone() });
        assert(ls[k as int] == lines@[k as int]@);
    }
    let mut bindings: Vec<FieldBinding> = Vec::new();
    let mut i: usize = 0;
    assert(fields@.take(0) =~= Seq::<FieldDefinition>::empty());
    while i < fields.len()
        invariant
            i <= fields@.len(),
            ls == texts(lines@),
            requests == acquisition_requests(fields@, ls),
            mapped_all == mapped_fields(fields@, ls),
            offset == (if capability_line(ls) is Some { 1usize } else { 0usize }),
            capabilities@.len() == offset,
            ({
                let m = mapped_fields(fields@.take(i as int), ls);
                let (f, descs) = describe_each(f0, requests.take(offset + m.len()));
                &&& factory@ == f
                &&& offset + m.len() <= requests.len()
                &&& requests.take(offset + m.len()) == requests.take(offset as int) + m.map_values(
                    |x: (FieldDefinition, Seq<char>)| source_request(x),
                )
                &&& (capability_line(ls) matches Some(k) ==> capabilities@[0].descriptor@ == descs[0]
                    && capabilities@[0].source_phrase@ == ls[k])
                &&& bindings@.len() == m.len()
                &&& forall|j: int|
                    0 <= j < bindings@.len() ==> {
                        &&& (#[trigger] bindings@[j]).owner == *owner
                        &&& bindings@[j].field == m[j].0.descriptor
                        &&& bindings@[j].source@ == descs[offset + j]
                        &&& transform_view(bindings@[j].transform) == transform_for(number_after_marker(m[j].1, "除以"@))
                    }
                &&& diagnostics_view(diagnostics@) == d0 + unmapped_errors(fields@.take(i as int), ls)
            }),
        decreases fields@.len() - i,
    {
        let field = &fields[i];
        assert(fields@.take(i + 1).drop_last() =~= fields@.take(i as int));
        assert(fields@.take(i + 1).last() == *field);
        let matching = find_mapping_line(lines, field.descriptor.native_name.as_str());
        match matching {
            None => {
                assert(mapped_fields(fields@.take(i + 1), ls) == mapped_fields(fields@.take(i as int), ls));
                let d = Diagnostic::error(field.descriptor.native_name.as_str(), "没有找到字段对应的数据获取映射。");
                let ghost before = diagnostics@;
                diagnostics.push(d);
                assert(diagnostics_view(diagnostics@) =~= diagnostics_view(before).push(d@));
                assert(unmapped_errors(fields@.take(i + 1), ls) == unmapped_errors(fields@.take(i as int), ls).push(d@));
                assert(d0 + unmapped_errors(fields@.take(i + 1), ls) =~= (d0 + unmapped_errors(fields@.take(i as int), ls)).push(d@));
            },
            Some(line) => {
                assert(unmapped_errors(fields@.take(i + 1), ls) == unmapped_errors(fields@.take(i as int), ls));
                let divisor = number_after(line.as_str(), "除以");
                let source_native = concat2(field.descriptor.native_name.as_str(), "原值");
                let source_stem = match &divisor {
                    Some(d) => fixture_source_stem(field.descriptor.code.as_str(), Some(d.as_str())),
                    None => fixture_source_stem(field.descriptor.code.as_str(), None),
                };
                let ghost m = mapped_fields(fields@.take(i as int), ls);
                let ghost m2 = mapped_fields(fields@.take(i + 1), ls);
                assert(m2 == m.push((*field, line@)));
                assert(source_request((*field, line@)) == (source_native@, Some(source_stem@)));
                let ghost n = offset + m.len();
                proof {
                    lemma_mapped_prefix(fields@, ls, i + 1);
                    lemma_describe_each_len(f0, requests.take(n));
                    assert(mapped_all[m.len() as int] == m2[m.len() as int]);
                }
                assert(requests.take(n + 1) =~= requests.take(offset as int) + m2.map_values(
                    |x: (FieldDefinition, Seq<char>)| source_request(x),
                ));
                assert(requests.take(n + 1).drop_last() =~= requests.take(n));
                let source = factory.describe(source_native.as_str(), Some(source_stem.as_str()));
                let transform = match divisor {
                    Some(d) => {
                        if literal_is_one(d.as_str()) {
                            ValueTransform::Identity
                        } else {
                            ValueTransform::Divide { divisor: d }
                        }
                    },
                    None => ValueTransform::Identity,
                };
                let ghost old_bindings = bindings@;
                bindings.push(FieldBinding {
                    owner: owner.clone(),
                    field: field.descriptor.clone(),
                    source,
                    transform,
                });
                let ghost (fb, descs2) = describe_each(f0, requests.take(n + 1));
                let ghost (fa, descs) = describe_each(f0, requests.take(n));
                assert forall|j: int| 0 <= j < bindings@.len() implies {
                    &&& (#[trigger] bindings@[j]).owner == *owner
                    &&& bindings@[j].field == m2[j].0.descriptor
                    &&& bindings@[j].source@ == descs2[offset + j]
                    &&& transform_view(bindings@[j].transform) == transform_for(number_after_marker(m2[j].1, "除以"@))
                } by {
                    if j < bindings@.len() - 1 {
                        assert(bindings@[j] == old_bindings[j]);
                        assert(m2[j] == m[j]);
                    }
                }
                if offset == 1 {
                    assert(descs2[0] == descs[0]);
                }
            },
        }
        i = i + 1;
    }
    assert(fields@.take(i as int) =~= fields@);
    proof {
        lemma_mapped_fields_len(fields@, ls);
        assert(requests.take(requests.len() as int) =~= requests);
    }
    if found.is_none() {
        let d = Diagnostic::error("数据获取", "没有找到可解析的数据源能力；请用母语说明数据来自哪里。");
        let ghost before = diagnostics@;
        diagnostics.push(d);
        assert(diagnostics_view(diagnostics@) =~= diagnostics_view(before).push(d@));
    } else {
        assert(d0 + unmapped_errors(fields@, ls) + Seq::<DiagnosticView>::empty() =~= d0 + unmapped_errors(fields@, ls));
    }
    (capabilities, bindings)
}


proof fn lemma_mapped_fields_len(fields: Seq<FieldDefinition>, lines: Seq<Seq<char>>)
    ensures
        mapped_fields(fields, lines).len() <= fields.len(),
    decreases fields.len(),
{
    if fields.len() > 0 {
        lemma_mapped_fields_len(fields.drop_last(), lines);
    }
}

proof fn lemma_mapped_prefix(fields: Seq<FieldDefinition>, lines: Seq<Seq<char>>, i: int)
    requires
        0 <= i <= fields.len(),
    ensures
        ({
            let p = mapped_fields(fields.take(i), lines);
            let a = mapped_fields(fields, lines);
            p.len() <= a.len() && a.take(p.len() as int) == p
        }),
    decreases fields.len(),
{
    let a = mapped_fields(fields, lines);
    if i == fields.len() {
        assert(fields.take(i) =~= fields);
        assert(a.take(a.len() as int) =~= a);
    } else {
        assert(fields.drop_last().take(i) =~= fields.take(i));
        lemma_mapped_prefix(fields.drop_last(), lines, i);
        let p = mapped_fields(fields.take(i), lines);
        let rest = mapped_fields(fields.drop_last(), lines);
        assert(a.take(p.len() as int) =~= rest.take(p.len() as int));
    }
}

/// The raw-source requests of the mapped fields depend on the fields'
/// descriptors alone.
proof fn lemma_source_requests_by_descriptors(a: Seq<FieldDefinition>, b: Seq<FieldDefinition>, lines: Seq<Seq<char>>)
    requires
        a.len() == b.len(),
        forall|i: int| 0 <= i < a.len() ==> (#[trigger] a[i]).descriptor@ == b[i].descriptor@,
    ensures
        mapped_fields(a, lines).map_values(|m: (FieldDefinition, Seq<char>)| source_request(m)) == mapped_fields(
            b,
            lines,
        ).map_values(|m: (FieldDefinition, Seq<char>)| source_request(m)),
    decreases a.len(),
{
    if a.len() > 0 {
        let ra = a.drop_last();
        let rb = b.drop_last();
        assert forall|i: int| 0 <= i < ra.len() implies (#[trigger] ra[i]).descriptor@ == rb[i].descriptor@ by {
            assert(ra[i] == a[i]);
            assert(rb[i] == b[i]);
        }
        lemma_source_requests_by_descriptors(ra, rb, lines);
        let fa = a.last();
        let fb = b.last();
        assert(fa == a[a.len() - 1]);
        assert(fb == b[b.len() - 1]);
        assert(fa.descriptor.native_name@ == fb.descriptor.native_name@);
        assert(fa.descriptor.code@ == fb.descriptor.code@);
        let ma = mapped_fields(ra, lines);
        let mb = mapped_fields(rb, lines);
        match mapping_line(lines, fa.descriptor.native_name@) {
            Some(line) => {
                assert(ma.push((fa, line)).map_values(|m: (FieldDefinition, Seq<char>)| source_request(m)) =~= ma.map_values(
                    |m: (FieldDefinition, Seq<char>)| source_request(m),
                ).push(source_request((fa, line))));
                assert(mb.push((fb, line)).map_values(|m: (FieldDefinition, Seq<char>)| source_request(m)) =~= mb.map_values(
                    |m: (FieldDefinition, Seq<char>)| source_request(m),
                ).push(source_request((fb, line))));
            },
            None => {},
        }
    }
}

/// The acquisition requests depend on the fields' descriptors alone.
pub proof fn lemma_acquisition_requests_by_descriptors(a: Seq<FieldDefinition>, b: Seq<FieldDefinition>, lines: Seq<Seq<char>>)
    requires
        a.len() == b.len(),
        forall|i: int| 0 <= i < a.len() ==> (#[trigger] a[i]).descriptor@ == b[i].descriptor@,
    ensures
        acquisition_requests(a, lines) == acquisition_requests(b, lines),
{
    lemma_source_requests_by_descriptors(a, b, lines);
}

} // verus!
