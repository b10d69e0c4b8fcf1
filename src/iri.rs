//! Identifier value object and the lexical order on identifiers.
use vstd::prelude::*;
use vstd::utf8::encode_utf8;

verus! {

/// Whether the text is an absolute IRI under the IRI grammar of RFC 3987.
pub uninterp spec fn is_valid_iri(text: Seq<char>) -> bool;

/// Relies on oxrdf::NamedNode::new, which parses its argument with oxiri's
/// `Iri::parse` and succeeds exactly on absolute IRIs; the verdict depends on the
/// text alone.
#[verifier::external_body]
fn parses_as_named_node(text: &str) -> (r: bool)
    ensures
        r == is_valid_iri(text@),
{
    oxrdf::NamedNode::new(text).is_ok()
}

/// Strict lexicographic order on byte strings.
pub open spec fn bytes_lt(a: Seq<u8>, b: Seq<u8>) -> bool
    decreases a.len(),
{
    if a.len() == 0 {
        b.len() > 0
    } else if b.len() == 0 {
        false
    } else if a[0] != b[0] {
        a[0] < b[0]
    } else {
        bytes_lt(a.drop_first(), b.drop_first())
    }
}

/// Strict order on identifier texts: lexicographic over their UTF-8 encoding,
/// which is the order of `str` comparison.
pub open spec fn iri_lt(a: Seq<char>, b: Seq<char>) -> bool {
    bytes_lt(encode_utf8(a), encode_utf8(b))
}

pub proof fn lemma_bytes_lt_irreflexive(a: Seq<u8>)
    ensures
        !bytes_lt(a, a),
    decreases a.len(),
{
    if a.len() > 0 {
        lemma_bytes_lt_irreflexive(a.drop_first());
    }
}

pub proof fn lemma_bytes_lt_transitive(a: Seq<u8>, b: Seq<u8>, c: Seq<u8>)
    requires
        bytes_lt(a, b),
        bytes_lt(b, c),
    ensures
        bytes_lt(a, c),
    decreases a.len(),
{
    if a.len() > 0 && b.len() > 0 && c.len() > 0 && a[0] == b[0] && b[0] == c[0] {
        lemma_bytes_lt_transitive(a.drop_first(), b.drop_first(), c.drop_first());
    }
}

pub proof fn lemma_bytes_lt_total(a: Seq<u8>, b: Seq<u8>)
    ensures
        bytes_lt(a, b) || bytes_lt(b, a) || a == b,
    decreases a.len(),
{
    if a.len() > 0 && b.len() > 0 {
        if a[0] == b[0] {
            lemma_bytes_lt_total(a.drop_first(), b.drop_first());
            if a.drop_first() == b.drop_first() {
                assert(a =~= seq![a[0]] + a.drop_first());
                assert(b =~= seq![b[0]] + b.drop_first());
            }
        }
    } else if a.len() == 0 && b.len() == 0 {
        assert(a =~= b);
    }
}

pub proof fn lemma_iri_lt_irreflexive(a: Seq<char>)
    ensures
        !iri_lt(a, a),
{
    lemma_bytes_lt_irreflexive(encode_utf8(a));
}

pub proof fn lemma_iri_lt_transitive(a: Seq<char>, b: Seq<char>, c: Seq<char>)
    requires
        iri_lt(a, b),
        iri_lt(b, c),
    ensures
        iri_lt(a, c),
{
    lemma_bytes_lt_transitive(encode_utf8(a), encode_utf8(b), encode_utf8(c));
}

pub proof fn lemma_iri_lt_total(a: Seq<char>, b: Seq<char>)
    ensures
        iri_lt(a, b) || iri_lt(b, a) || a == b,
{
    lemma_bytes_lt_total(encode_utf8(a), encode_utf8(b));
    if encode_utf8(a) == encode_utf8(b) {
        vstd::utf8::encode_utf8_decode_utf8(a);
        vstd::utf8::encode_utf8_decode_utf8(b);
    }
}

/// Identifier of every entity: text that parses as an absolute IRI.
#[derive(Debug, Hash)]
pub struct Iri {
    value: String,
}

impl View for Iri {
    type V = Seq<char>;

    closed spec fn view(&self) -> Seq<char> {
        self.value@
    }
}

/// Errors produced when validating an identifier.
#[derive(Clone, Debug, PartialEq, Eq)]
pub enum IriError {
    /// The text does not parse as an absolute IRI.
    Invalid { value: String },
}

impl Iri {
    /// Well-formedness: the text parses as an absolute IRI.
    pub open spec fn wf(&self) -> bool {
        is_valid_iri(self@)
    }

    /// Validates the text and wraps it; the error carries the rejected text.
    pub fn new(value: &str) -> (r: Result<Iri, IriError>)
        ensures
            is_valid_iri(value@) ==> (r matches Ok(iri) && iri@ == value@ && iri.wf()),
            !is_valid_iri(value@) ==> (r matches Err(IriError::Invalid { value: v }) && v@
                == value@),
    {
        if parses_as_named_node(value) {
            Ok(Iri { value: value.to_owned() })
        } else {
            Err(IriError::Invalid { value: value.to_owned() })
        }
    }

    /// The identifier's text.
    pub fn as_str(&self) -> (r: &str)
        ensures
            r@ == self@,
    {
        self.value.as_str()
    }

    /// Exact textual equality.
    pub fn same(&self, other: &Iri) -> (r: bool)
        ensures
            r == (self@ == other@),
    {
        self.value == other.value
    }

    /// Whether `self` orders strictly before `other`.
    pub fn precedes(&self, other: &Iri) -> (r: bool)
        ensures
            r == iri_lt(self@, other@),
    {
        str_precedes(self.value.as_str(), other.value.as_str())
    }
}

/// Whether `a` orders strictly before `b`: byte-wise, as `str` comparison does.
pub fn str_precedes(a: &str, b: &str) -> (r: bool)
    ensures
        r == iri_lt(a@, b@),
{
    let x = a.as_bytes();
    let y = b.as_bytes();
    let ghost ga = x@;
    let ghost gb = y@;
    let mut i: usize = 0;
    assert(ga.skip(0) =~= ga);
    assert(gb.skip(0) =~= gb);
    while i < x.len() && i < y.len()
        invariant
            x@ == ga,
            y@ == gb,
            ga == encode_utf8(a@),
            gb == encode_utf8(b@),
            i <= ga.len(),
            i <= gb.len(),
            bytes_lt(ga, gb) == bytes_lt(ga.skip(i as int), gb.skip(i as int)),
        decreases x.len() - i,
    {
        if x[i] != y[i] {
            return x[i] < y[i];
        }
        assert(ga.skip(i as int).drop_first() =~= ga.skip(i + 1));
        assert(gb.skip(i as int).drop_first() =~= gb.skip(i + 1));
        i = i + 1;
    }
    i < y.len()
}

/// Whether `a` and `b` are the same text.
pub fn str_same(a: &str, b: &str) -> (r: bool)
    ensures
        r == (a@ == b@),
{
    let r = !str_precedes(a, b) && !str_precedes(b, a);
    proof {
        lemma_iri_lt_total(a@, b@);
        lemma_iri_lt_irreflexive(a@);
    }
    r
}

impl Clone for Iri {
    fn clone(&self) -> (r: Iri)
        ensures
            r == *self,
    {
        Iri { value: self.value.clone() }
    }
}

impl PartialEq for Iri {
    fn eq(&self, other: &Iri) -> (r: bool) {
        self.value == other.value
    }
}

impl vstd::std_specs::cmp::PartialEqSpecImpl for Iri {
    open spec fn obeys_eq_spec() -> bool {
        true
    }

    open spec fn eq_spec(&self, other: &Iri) -> bool {
        self@ == other@
    }
}

impl Eq for Iri {}

impl core::str::FromStr for Iri {
    type Err = IriError;

    fn from_str(s: &str) -> Result<Iri, IriError> {
        Iri::new(s)
    }
}

} // verus!
