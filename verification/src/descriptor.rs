//! Semantic descriptors: a mother-tongue name together with the English stem and
//! the code identity the compiler derives for it.
use vstd::prelude::*;

use crate::digest::{hex_lower, is_hex_text, sha256_hex8, spec_sha256};
use crate::encode::Encode;
use crate::text::{concat3, concat2, owned, str_eq, string_from_chars, chars_of};
use crate::textmap::{latest, lemma_latest_text, text_entries, TextMap};
use vstd::utf8::encode_utf8;

verus! {

/// The text content of a descriptor.
pub ghost struct DescriptorView {
    pub native_name: Seq<char>,
    pub english_stem: Seq<char>,
    pub code: Seq<char>,
}

/// A mother-tongue name and the English identity derived for it.
#[derive(Debug)]
pub struct SemanticDescriptor {
    pub native_name: String,
    pub english_stem: String,
    pub code: String,
}

impl View for SemanticDescriptor {
    type V = DescriptorView;

    open spec fn view(&self) -> DescriptorView {
        DescriptorView {
            native_name: self.native_name@,
            english_stem: self.english_stem@,
            code: self.code@,
        }
    }
}

impl SemanticDescriptor {
    /// Builds a descriptor whose normalisation is already done.
    pub fn new(native_name: &str, english_stem: &str, code: &str) -> (r: Self)
        ensures
            r.native_name@ == native_name@,
            r.english_stem@ == english_stem@,
            r.code@ == code@,
    {
        SemanticDescriptor {
            native_name: owned(native_name),
            english_stem: owned(english_stem),
            code: owned(code),
        }
    }
}

impl Clone for SemanticDescriptor {
    fn clone(&self) -> (r: Self)
        ensures
            r == *self,
    {
        SemanticDescriptor {
            native_name: self.native_name.clone(),
            english_stem: self.english_stem.clone(),
            code: self.code.clone(),
        }
    }
}

impl PartialEq for SemanticDescriptor {
    fn eq(&self, other: &Self) -> (r: bool) {
        self.native_name == other.native_name && self.english_stem == other.english_stem
            && self.code == other.code
    }
}

impl vstd::std_specs::cmp::PartialEqSpecImpl for SemanticDescriptor {
    open spec fn obeys_eq_spec() -> bool {
        true
    }

    open spec fn eq_spec(&self, other: &Self) -> bool {
        self@ == other@
    }
}

impl Eq for SemanticDescriptor {
}

impl Encode for SemanticDescriptor {
    fn encode(&self) -> (r: &str)
        ensures
            r@ == self.code@,
    {
        self.code.as_str()
    }
}

/// Equality of descriptors by their text.
pub fn same_descriptor(a: &SemanticDescriptor, b: &SemanticDescriptor) -> (r: bool)
    ensures
        r == (a@ == b@),
{
    a.native_name == b.native_name && a.english_stem == b.english_stem && a.code == b.code
}

/// ASCII letters and digits, the characters an identifier stem keeps.
pub open spec fn is_ascii_alnum(c: char) -> bool {
    ('0' <= c && c <= '9') || ('a' <= c && c <= 'z') || ('A' <= c && c <= 'Z')
}

/// ASCII upper-case letters mapped to lower case; every other character unchanged.
pub open spec fn ascii_lower(c: char) -> char {
    if 'A' <= c && c <= 'Z' {
        ((c as u32) + 32) as char
    } else {
        c
    }
}

/// Snake-case words of `s`: maximal runs of ASCII letters and digits, lowered,
/// joined by single underscores.  The flag tells whether a separator is pending.
pub open spec fn snake_words(s: Seq<char>) -> (Seq<char>, bool)
    decreases s.len(),
{
    if s.len() == 0 {
        (Seq::empty(), false)
    } else {
        let (out, pending) = snake_words(s.drop_last());
        let c = s.last();
        if is_ascii_alnum(c) {
            if pending && out.len() > 0 {
                (out + seq!['_', ascii_lower(c)], false)
            } else {
                (out.push(ascii_lower(c)), false)
            }
        } else {
            (out, true)
        }
    }
}

/// The first eight hexadecimal digits of the SHA-256 digest of a name's UTF-8 bytes.
pub open spec fn short_hash(name: Seq<char>) -> Seq<char> {
    hex_lower(spec_sha256(encode_utf8(name)).take(4))
}

/// The English stem inferred from a transliterated name: its snake-case words;
/// `semantic_<hash>` of the native name when there are none, and `n_` in front
/// when the words start with a digit.
pub open spec fn inferred_stem(transliterated: Seq<char>, native_name: Seq<char>) -> Seq<char> {
    let words = snake_words(transliterated).0;
    if words.len() == 0 {
        "semantic_"@ + short_hash(native_name)
    } else if '0' <= words[0] && words[0] <= '9' {
        "n_"@ + words
    } else {
        words
    }
}

fn to_ascii_lower(c: char) -> (r: char)
    ensures
        r == ascii_lower(c),
{
    if 'A' <= c && c <= 'Z' {
        let code = c as u32;
        assert(65 <= code <= 90);
        ((code + 32) as u8) as char
    } else {
        c
    }
}

/// Normalises a transliterated name into a snake-case English stem.
pub fn normalize_inferred_stem(transliterated: &str, native_name: &str) -> (r: String)
    ensures
        r@ == inferred_stem(transliterated@, native_name@),
        snake_words(transliterated@).0.len() == 0 ==> short_hash(native_name@).len() == 8 && is_hex_text(
            short_hash(native_name@),
        ),
{
    let chars = chars_of(transliterated);
    let mut out: Vec<char> = Vec::new();
    let mut pending = false;
    let mut i: usize = 0;
    while i < chars.len()
        invariant
            i <= chars@.len(),
            chars@ == transliterated@,
            (out@, pending) == snake_words(chars@.take(i as int)),
        decreases chars@.len() - i,
    {
        let c = chars[i];
        assert(chars@.take(i + 1).drop_last() =~= chars@.take(i as int));
        if ('0' <= c && c <= '9') || ('a' <= c && c <= 'z') || ('A' <= c && c <= 'Z') {
            if pending && out.len() > 0 {
                out.push('_');
            }
            out.push(to_ascii_lower(c));
            pending = false;
        } else {
            pending = true;
        }
        i = i + 1;
    }
    assert(chars@.take(chars@.len() as int) =~= chars@);
    if out.len() == 0 {
        let hash = sha256_hex8(native_name.as_bytes());
        concat2("semantic_", hash.as_str())
    } else if '0' <= out[0] && out[0] <= '9' {
        let words = string_from_chars(out.as_slice());
        concat2("n_", words.as_str())
    } else {
        string_from_chars(out.as_slice())
    }
}

/// The code a name receives for a stem, given who already holds the stem:
/// the stem itself when it is free or held by the same name, otherwise the
/// stem, an underscore and the name's short hash.
pub open spec fn encoded_code(
    holder: Option<Seq<char>>,
    native_name: Seq<char>,
    stem: Seq<char>,
) -> Seq<char> {
    match holder {
        None => stem,
        Some(h) => if h == native_name {
            stem
        } else {
            stem + seq!['_'] + short_hash(native_name)
        },
    }
}

/// Assigns code identities to names, keeping track of which name holds each code.
pub struct DescriptorEncoder {
    claims: TextMap<String>,
}

impl DescriptorEncoder {
    /// The claims made so far, in order: each code with the name that claimed it.
    pub closed spec fn claims(&self) -> Seq<(Seq<char>, Seq<char>)> {
        text_entries(self.claims@)
    }

    /// The name that currently holds `code`: the one that claimed it last.
    pub open spec fn holder(&self, code: Seq<char>) -> Option<Seq<char>> {
        latest(self.claims(), code)
    }

    /// An encoder in which no code is held.
    pub fn new() -> (r: Self)
        ensures
            r.claims() == Seq::<(Seq<char>, Seq<char>)>::empty(),
            forall|c: Seq<char>| #[trigger] r.holder(c) is None,
    {
        let r = DescriptorEncoder { claims: TextMap::new() };
        assert(r.claims() =~= Seq::<(Seq<char>, Seq<char>)>::empty());
        r
    }

    /// Records that `descriptor`'s name holds its code.
    pub fn reserve(&mut self, descriptor: &SemanticDescriptor)
        ensures
            final(self).claims() == old(self).claims().push((descriptor.code@, descriptor.native_name@)),
            final(self).holder(descriptor.code@) == Some(descriptor.native_name@),
            forall|c: Seq<char>| c != descriptor.code@ ==> #[trigger] final(self).holder(c) == old(self).holder(c),
    {
        self.claims.insert(descriptor.code.clone(), descriptor.native_name.clone());
        assert(self.claims() =~= old(self).claims().push((descriptor.code@, descriptor.native_name@)));
        assert(self.claims().drop_last() =~= old(self).claims());
    }

    /// Derives the descriptor of `native_name` from its English stem and records
    /// the code it receives.
    pub fn describe(&mut self, native_name: &str, english_stem: &str) -> (r: SemanticDescriptor)
        ensures
            r.native_name@ == native_name@,
            r.english_stem@ == english_stem@,
            r.code@ == encoded_code(old(self).holder(english_stem@), native_name@, english_stem@),
            r.code@ != english_stem@ ==> short_hash(native_name@).len() == 8 && is_hex_text(short_hash(native_name@)),
            final(self).claims() == old(self).claims().push((r.code@, native_name@)),
            final(self).holder(r.code@) == Some(native_name@),
            forall|c: Seq<char>| c != r.code@ ==> #[trigger] final(self).holder(c) == old(self).holder(c),
    {
        proof {
            lemma_latest_text(self.claims@, english_stem@);
        }
        let free = match self.claims.get(english_stem) {
            None => true,
            Some(holder) => str_eq(holder.as_str(), native_name),
        };
        let code = if free {
            owned(english_stem)
        } else {
            let hash = sha256_hex8(native_name.as_bytes());
            concat3(english_stem, "_", hash.as_str())
        };
        proof {
            reveal_strlit("_");
        }
        let ghost code_view = code@;
        self.claims.insert(code.clone(), owned(native_name));
        assert(self.claims() =~= old(self).claims().push((code_view, native_name@)));
        assert(self.claims().drop_last() =~= old(self).claims());
        SemanticDescriptor { native_name: owned(native_name), english_stem: owned(english_stem), code }
    }
}

impl Default for DescriptorEncoder {
    fn default() -> (r: Self)
        ensures
            r.claims() == Seq::<(Seq<char>, Seq<char>)>::empty(),
            forall|c: Seq<char>| #[trigger] r.holder(c) is None,
    {
        DescriptorEncoder::new()
    }
}

/// Once a name has received a code for a stem, describing the same name with the
/// same stem again gives the same code.
pub proof fn lemma_describe_again_same_code(
    before: DescriptorEncoder,
    after: DescriptorEncoder,
    native_name: Seq<char>,
    stem: Seq<char>,
)
    requires
        after.holder(encoded_code(before.holder(stem), native_name, stem)) == Some(native_name),
        forall|c: Seq<char>|
            c != encoded_code(before.holder(stem), native_name, stem) ==> #[trigger] after.holder(c)
                == before.holder(c),
    ensures
        encoded_code(after.holder(stem), native_name, stem) == encoded_code(
            before.holder(stem),
            native_name,
            stem,
        ),
{
    let code = encoded_code(before.holder(stem), native_name, stem);
    if code != stem {
        assert(code.len() > stem.len());
        assert(after.holder(stem) == before.holder(stem));
    }
}

} // verus!
