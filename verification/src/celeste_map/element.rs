//! The element decoder: one tree node is a name (a lookup-table
//! reference), a count-prefixed attribute list folded into a name-to-value
//! mapping (two attributes with the same name: the later one wins), and a
//! count-prefixed list of child nodes, decoded recursively in wire order.

use crate::celeste_map::attribute;
use crate::celeste_map::attribute::Attribute;
use crate::celeste_map::attribute::AttributeValue;
use crate::celeste_map::attribute::SpecAttributeValue;
use crate::celeste_map::lookup;
use crate::celeste_map::lookup::Lookup;
use crate::celeste_map::lookup::ReadIndexGetError;
use crate::celeste_map::prim;
use crate::celeste_map::string::bytes_eq;
use vstd::prelude::*;

verus! {

broadcast use vstd::std_specs::vec::group_vec_axioms;

/// Failure of an element read: a list count could not be read, the name
/// could not be resolved, or an attribute failed to decode.  A failure in
/// a child is reported as that child's own failure.
#[derive(Debug, Clone, Copy, PartialEq, Eq, Structural)]
pub enum ReadError {
    Length,
    Lookup(ReadIndexGetError),
    Attribute(attribute::ReadError),
}

/// The mathematical model of one decoded element.
pub struct SpecElement {
    pub name: Seq<u8>,
    pub attributes: Map<Seq<u8>, SpecAttributeValue>,
    pub children: Seq<SpecElement>,
}

/// A name/value pair list folded into a mapping, front first: a later
/// entry under the same name overwrites the earlier one.
pub open spec fn sp_fold_attrs(
    m: Map<Seq<u8>, SpecAttributeValue>,
    pairs: Seq<(Seq<u8>, SpecAttributeValue)>,
) -> Map<Seq<u8>, SpecAttributeValue>
    decreases pairs.len(),
{
    if pairs.len() == 0 {
        m
    } else {
        sp_fold_attrs(m.insert(pairs[0].0, pairs[0].1), pairs.skip(1))
    }
}

/// The mapping of a wire attribute list: its pairs folded into an empty
/// mapping, so that the last occurrence of a name wins.
pub open spec fn sp_attr_map(pairs: Seq<(Seq<u8>, SpecAttributeValue)>) -> Map<
    Seq<u8>,
    SpecAttributeValue,
> {
    sp_fold_attrs(Map::empty(), pairs)
}

/// The value of the last pair named `n`, if the list has one.
pub open spec fn sp_last_value(
    pairs: Seq<(Seq<u8>, SpecAttributeValue)>,
    n: Seq<u8>,
) -> Option<SpecAttributeValue>
    decreases pairs.len(),
{
    if pairs.len() == 0 {
        None
    } else {
        match sp_last_value(pairs.skip(1), n) {
            Some(v) => Some(v),
            None => if pairs[0].0 == n {
                Some(pairs[0].1)
            } else {
                None
            },
        }
    }
}

/// Folding with a non-empty start: a name is present when the start map
/// holds it or the list names it; its value is the last listed one, or the
/// start map's where the list is silent.
proof fn lemma_fold_attrs_last(
    m: Map<Seq<u8>, SpecAttributeValue>,
    pairs: Seq<(Seq<u8>, SpecAttributeValue)>,
    n: Seq<u8>,
)
    ensures
        sp_fold_attrs(m, pairs).contains_key(n) <==> (m.contains_key(n) || sp_last_value(pairs, n)
            is Some),
        sp_last_value(pairs, n) matches Some(v) ==> sp_fold_attrs(m, pairs)[n] == v,
        sp_last_value(pairs, n) is None && m.contains_key(n) ==> sp_fold_attrs(m, pairs)[n]
            == m[n],
    decreases pairs.len(),
{
    if pairs.len() != 0 {
        lemma_fold_attrs_last(m.insert(pairs[0].0, pairs[0].1), pairs.skip(1), n);
    }
}

/// The law of duplicate attribute names: the decoded mapping of a wire
/// attribute list holds a name exactly when the list has a pair under that
/// name, and then exactly one entry for it, whose value is the later (the
/// last) pair's value.
pub proof fn lemma_attr_map_last_wins(pairs: Seq<(Seq<u8>, SpecAttributeValue)>, n: Seq<u8>)
    ensures
        sp_attr_map(pairs).contains_key(n) <==> sp_last_value(pairs, n) is Some,
        sp_last_value(pairs, n) matches Some(v) ==> sp_attr_map(pairs)[n] == v,
{
    lemma_fold_attrs_last(Map::empty(), pairs, n);
}

/// Folding one more pair at the end of the list updates the mapping at
/// that pair's name.
proof fn lemma_fold_push(
    m: Map<Seq<u8>, SpecAttributeValue>,
    pairs: Seq<(Seq<u8>, SpecAttributeValue)>,
    p: (Seq<u8>, SpecAttributeValue),
)
    ensures
        sp_fold_attrs(m, pairs.push(p)) == sp_fold_attrs(m, pairs).insert(p.0, p.1),
    decreases pairs.len(),
{
    if pairs.len() == 0 {
        assert(pairs.push(p)[0] == p);
        assert(pairs.push(p).skip(1) =~= Seq::<(Seq<u8>, SpecAttributeValue)>::empty());
        assert(sp_fold_attrs(m, pairs.push(p)) == sp_fold_attrs(
            m.insert(p.0, p.1),
            pairs.push(p).skip(1),
        ));
        assert(sp_fold_attrs(m.insert(p.0, p.1), Seq::<(Seq<u8>, SpecAttributeValue)>::empty())
            == m.insert(p.0, p.1));
        assert(sp_fold_attrs(m, pairs) == m);
    } else {
        assert(pairs.push(p)[0] == pairs[0]);
        assert(pairs.push(p).skip(1) =~= pairs.skip(1).push(p));
        lemma_fold_push(m.insert(pairs[0].0, pairs[0].1), pairs.skip(1), p);
    }
}

/// A list with no pair named `n` has no last value for it.
proof fn lemma_last_value_none(pairs: Seq<(Seq<u8>, SpecAttributeValue)>, n: Seq<u8>)
    requires
        forall|j: int| 0 <= j < pairs.len() ==> pairs[j].0 != n,
    ensures
        sp_last_value(pairs, n) is None,
    decreases pairs.len(),
{
    if pairs.len() != 0 {
        lemma_last_value_none(pairs.skip(1), n);
    }
}

/// When the pair at `k` is named `n` and no later pair is, the last value
/// for `n` is that pair's.
proof fn lemma_last_value_at(pairs: Seq<(Seq<u8>, SpecAttributeValue)>, n: Seq<u8>, k: int)
    requires
        0 <= k < pairs.len(),
        pairs[k].0 == n,
        forall|j: int| k < j < pairs.len() ==> pairs[j].0 != n,
    ensures
        sp_last_value(pairs, n) == Some(pairs[k].1),
    decreases pairs.len(),
{
    if k == 0 {
        assert(forall|j: int| 0 <= j < pairs.skip(1).len() ==> pairs.skip(1)[j].0 != n);
        lemma_last_value_none(pairs.skip(1), n);
    } else {
        assert(pairs.skip(1)[k - 1] == pairs[k]);
        lemma_last_value_at(pairs.skip(1), n, k - 1);
    }
}

/// The attribute mapping of one element: entries are kept in wire order,
/// and a later entry shadows an earlier one of the same name, so the
/// mapping holds exactly one value per name — the last one decoded.
#[derive(Debug, Clone)]
pub struct AttributeMap {
    entries: Vec<Attribute>,
}

/// The name/value views of a sequence of attributes.
pub open spec fn attr_views(v: Seq<Attribute>) -> Seq<(Seq<u8>, SpecAttributeValue)> {
    Seq::new(v.len(), |i: int| v[i]@)
}

impl View for AttributeMap {
    type V = Map<Seq<u8>, SpecAttributeValue>;

    closed spec fn view(&self) -> Map<Seq<u8>, SpecAttributeValue> {
        sp_attr_map(attr_views(self.entries@))
    }
}

impl AttributeMap {
    /// An empty mapping.
    pub fn new() -> (r: Self)
        ensures
            r@ == Map::<Seq<u8>, SpecAttributeValue>::empty(),
    {
        let r = AttributeMap { entries: Vec::new() };
        proof {
            assert(attr_views(r.entries@) =~= Seq::<(Seq<u8>, SpecAttributeValue)>::empty());
        }
        r
    }

    /// Whether the mapping holds no name at all.
    pub fn is_empty(&self) -> (r: bool)
        ensures
            r == (self@ =~= Map::<Seq<u8>, SpecAttributeValue>::empty()),
    {
        if self.entries.len() == 0 {
            proof {
                assert(attr_views(self.entries@) =~= Seq::<(Seq<u8>, SpecAttributeValue)>::empty());
            }
            true
        } else {
            proof {
                let pairs = attr_views(self.entries@);
                let n = self.entries@[0].name@;
                assert(pairs[0].0 == n);
                if sp_last_value(pairs, n) is None {
                    lemma_last_value_none_converse(pairs, n);
                }
                lemma_attr_map_last_wins(pairs, n);
                assert(self@.contains_key(n));
            }
            false
        }
    }

    /// Inserts a value under a name; a prior value under the same name is
    /// shadowed, exactly as a later wire attribute overwrites an earlier
    /// one.
    pub fn insert(&mut self, name: crate::celeste_map::string::SimpleString, value: AttributeValue)
        ensures
            final(self)@ == old(self)@.insert(name@, value@),
    {
        let ghost pairs = attr_views(self.entries@);
        self.entries.push(Attribute { name, value });
        proof {
            assert(attr_views(self.entries@) =~= pairs.push(
                (self.entries@.last().name@, self.entries@.last().value@),
            ));
            lemma_fold_push(
                Map::empty(),
                pairs,
                (self.entries@.last().name@, self.entries@.last().value@),
            );
        }
    }

    /// The value under a name, when the mapping holds one: the latest
    /// value inserted under it.
    pub fn get(&self, name: &[u8]) -> (r: Option<&AttributeValue>)
        ensures
            match r {
                Some(v) => self@.contains_key(name@) && v@ == self@[name@],
                None => !self@.contains_key(name@),
            },
    {
        let ghost pairs = attr_views(self.entries@);
        let mut i: usize = self.entries.len();
        while i > 0
            invariant
                i <= self.entries.len(),
                pairs == attr_views(self.entries@),
                forall|j: int| i <= j < self.entries@.len() ==> pairs[j].0 != name@,
            decreases i,
        {
            i = i - 1;
            if bytes_eq(self.entries[i].name.as_bytes(), name) {
                proof {
                    lemma_last_value_at(pairs, name@, i as int);
                    lemma_attr_map_last_wins(pairs, name@);
                }
                return Some(&self.entries[i].value);
            }
        }
        proof {
            lemma_last_value_none(pairs, name@);
            lemma_attr_map_last_wins(pairs, name@);
        }
        None
    }
}

/// A last value under `n` names a pair under `n`.
proof fn lemma_last_value_none_converse(pairs: Seq<(Seq<u8>, SpecAttributeValue)>, n: Seq<u8>)
    requires
        exists|j: int| 0 <= j < pairs.len() && pairs[j].0 == n,
    ensures
        sp_last_value(pairs, n) is Some,
    decreases pairs.len(),
{
    let j = choose|j: int| 0 <= j < pairs.len() && pairs[j].0 == n;
    if j == 0 {
        if sp_last_value(pairs.skip(1), n) is None {
        }
    } else {
        assert(pairs.skip(1)[j - 1] == pairs[j]);
        lemma_last_value_none_converse(pairs.skip(1), n);
    }
}

/// One decoded tree node: a name aliasing a lookup-table entry, the
/// attribute mapping, and the ordered children.
#[derive(Debug)]
pub struct Element {
    pub name: crate::celeste_map::string::SimpleString,
    pub attributes: AttributeMap,
    pub children: Vec<Element>,
}

/// The models of a sequence of elements.
pub open spec fn element_views(v: Seq<Element>) -> Seq<SpecElement> {
    Seq::new(v.len(), |i: int| v[i]@)
}

/// The model of one element: its name and attribute mapping, with the
/// children modelled in order.
pub open spec fn sp_element_model(e: Element) -> SpecElement
    decreases e,
{
    SpecElement {
        name: e.name@,
        attributes: e.attributes@,
        children: sp_element_models(e.children@),
    }
}

/// The models of a sequence of elements, in order.
pub open spec fn sp_element_models(v: Seq<Element>) -> Seq<SpecElement>
    decreases v,
{
    if v.len() == 0 {
        Seq::empty()
    } else {
        seq![sp_element_model(v[0])] + sp_element_models(v.skip(1))
    }
}

impl View for Element {
    type V = SpecElement;

    open spec fn view(&self) -> SpecElement {
        sp_element_model(*self)
    }
}

/// Prefixes the pairs of a successful attribute-list tail parse with
/// already-parsed pairs.
pub open spec fn sp_prepend_attrs(
    items: Seq<(Seq<u8>, SpecAttributeValue)>,
    r: Result<(Seq<(Seq<u8>, SpecAttributeValue)>, Seq<u8>), attribute::ReadError>,
) -> Result<(Seq<(Seq<u8>, SpecAttributeValue)>, Seq<u8>), attribute::ReadError> {
    match r {
        Ok((more, rest)) => Ok((items + more, rest)),
        Err(e) => Err(e),
    }
}

/// `n` attributes read in order from the front of the input, as the raw
/// wire list of name/value pairs.
pub open spec fn sp_read_attr_list(table: Seq<Seq<u8>>, s: Seq<u8>, n: nat) -> Result<
    (Seq<(Seq<u8>, SpecAttributeValue)>, Seq<u8>),
    attribute::ReadError,
>
    decreases n,
{
    if n == 0 {
        Ok((Seq::empty(), s))
    } else {
        match attribute::sp_read_attribute(table, s) {
            Err(e) => Err(e),
            Ok((pair, rest)) => sp_prepend_attrs(
                seq![pair],
                sp_read_attr_list(table, rest, (n - 1) as nat),
            ),
        }
    }
}

/// Prefixes the elements of a successful child-list tail parse with
/// already-parsed elements.
pub open spec fn sp_prepend_children(
    items: Seq<SpecElement>,
    r: Result<(Seq<SpecElement>, Seq<u8>), ReadError>,
) -> Result<(Seq<SpecElement>, Seq<u8>), ReadError> {
    match r {
        Ok((more, rest)) => Ok((items + more, rest)),
        Err(e) => Err(e),
    }
}

/// One element read from the front of the input: the name reference, a
/// one-byte attribute count and that many attributes folded into the
/// mapping, then a two-byte child count and that many children in order.
/// (The guard on the remaining length always holds — the name alone
/// consumes two bytes — and only shapes the recursion.)
pub open spec fn sp_read_element(table: Seq<Seq<u8>>, s: Seq<u8>) -> Result<
    (SpecElement, Seq<u8>),
    ReadError,
>
    decreases s.len(), 0nat,
{
    match lookup::sp_resolve(table, s) {
        Err(e) => Err(ReadError::Lookup(e)),
        Ok((name, s1)) => match prim::sp_read_u8(s1) {
            None => Err(ReadError::Length),
            Some((ac, s2)) => match sp_read_attr_list(table, s2, ac as nat) {
                Err(e) => Err(ReadError::Attribute(e)),
                Ok((pairs, s3)) => match prim::sp_read_u16(s3) {
                    None => Err(ReadError::Length),
                    Some((cc, s4)) => if s4.len() < s.len() {
                        match sp_read_children(table, s4, cc as nat) {
                            Err(e) => Err(e),
                            Ok((children, s5)) => Ok(
                                (
                                    SpecElement {
                                        name: name,
                                        attributes: sp_attr_map(pairs),
                                        children: children,
                                    },
                                    s5,
                                ),
                            ),
                        }
                    } else {
                        Err(ReadError::Length)
                    },
                },
            },
        },
    }
}

/// `n` child elements read in order from the front of the input.  (As
/// above, the guard on the remaining length always holds.)
pub open spec fn sp_read_children(table: Seq<Seq<u8>>, s: Seq<u8>, n: nat) -> Result<
    (Seq<SpecElement>, Seq<u8>),
    ReadError,
>
    decreases s.len(), n,
{
    if n == 0 {
        Ok((Seq::empty(), s))
    } else {
        match sp_read_element(table, s) {
            Err(e) => Err(e),
            Ok((e, rest)) => if rest.len() < s.len() {
                sp_prepend_children(seq![e], sp_read_children(table, rest, (n - 1) as nat))
            } else {
                Err(ReadError::Length)
            },
        }
    }
}

/// The two readings of a sequence's models, recursive and pointwise,
/// agree.
proof fn lemma_element_models_pointwise(v: Seq<Element>)
    ensures
        sp_element_models(v) == element_views(v),
    decreases v.len(),
{
    if v.len() == 0 {
        assert(sp_element_models(v) =~= element_views(v));
    } else {
        lemma_element_models_pointwise(v.skip(1));
        assert forall|i: int| 0 <= i < v.len() implies sp_element_models(v)[i] == element_views(
            v,
        )[i] by {
            if i > 0 {
                assert(sp_element_models(v)[i] == sp_element_models(v.skip(1))[i - 1]);
                assert(element_views(v.skip(1))[i - 1] == v.skip(1)[i - 1]@);
            }
        }
        assert(sp_element_models(v) =~= element_views(v));
    }
}

impl Element {
    /// Reads one element and, recursively, its children.  Any failure at
    /// any step aborts the whole element; no partial element is returned.
    #[verifier::loop_isolation(false)]
    pub fn read<'a>(input: &'a [u8], table: &Lookup) -> (r: Result<(Element, &'a [u8]), ReadError>)
        ensures
            match r {
                Ok((e, rest)) => sp_read_element(table@, input@) matches Ok(p) && e@ == p.0
                    && rest@ == p.1 && rest@.len() < input@.len(),
                Err(err) => sp_read_element(table@, input@) matches Err(e2) && err == e2,
            },
        decreases input@.len(),
    {
        let (name_entry, s1) = match table.read_index_get(input) {
            Err(e) => {
                return Err(ReadError::Lookup(e));
            },
            Ok(p) => p,
        };
        let name = name_entry.clone();
        let (ac, s2) = match prim::read_u8(s1) {
            None => {
                return Err(ReadError::Length);
            },
            Some(p) => p,
        };
        let ghost s2v = s2@;
        let n: usize = ac as usize;
        let mut attrs = AttributeMap::new();
        let ghost mut done: Seq<(Seq<u8>, SpecAttributeValue)> = Seq::empty();
        let mut cur: &[u8] = s2;
        let mut i: usize = 0;
        proof {
            assert(done + Seq::<(Seq<u8>, SpecAttributeValue)>::empty() =~= done);
            match sp_read_attr_list(table@, s2v, n as nat) {
                Ok(p) => {
                    assert(done + p.0 =~= p.0);
                },
                Err(_) => {},
            }
        }
        while i < n
            invariant
                i <= n,
                cur@.len() <= s2v.len(),
                attrs@ == sp_attr_map(done),
                sp_read_attr_list(table@, s2v, n as nat) == sp_prepend_attrs(
                    done,
                    sp_read_attr_list(table@, cur@, (n - i) as nat),
                ),
            decreases n - i,
        {
            match Attribute::read(cur, table) {
                Err(e) => {
                    return Err(ReadError::Attribute(e));
                },
                Ok((attr, rest)) => {
                    let ghost pair = attr@;
                    proof {
                        lemma_fold_push(Map::empty(), done, pair);
                        assert(done.push(pair) =~= done + seq![pair]);
                        match sp_read_attr_list(table@, rest@, (n - i - 1) as nat) {
                            Ok(p) => {
                                assert((done + seq![pair]) + p.0 =~= done + (seq![pair] + p.0));
                            },
                            Err(_) => {},
                        }
                        done = done.push(pair);
                    }
                    attrs.insert(attr.name, attr.value);
                    cur = rest;
                },
            }
            i = i + 1;
        }
        proof {
            assert(done + Seq::<(Seq<u8>, SpecAttributeValue)>::empty() =~= done);
        }
        let (cc, s4) = match prim::read_u16(cur) {
            None => {
                return Err(ReadError::Length);
            },
            Some(p) => p,
        };
        let ghost s4v = s4@;
        let m: usize = cc as usize;
        let mut children: Vec<Element> = Vec::new();
        let mut cur2: &[u8] = s4;
        let mut j: usize = 0;
        proof {
            match sp_read_children(table@, s4v, m as nat) {
                Ok(p) => {
                    assert(element_views(children@) + p.0 =~= p.0);
                    assert(element_views(children@) =~= Seq::<SpecElement>::empty());
                },
                Err(_) => {
                    assert(element_views(children@) =~= Seq::<SpecElement>::empty());
                },
            }
        }
        while j < m
            invariant
                j <= m,
                cur2@.len() <= s4v.len(),
                s4v.len() < input@.len(),
                sp_read_children(table@, s4v, m as nat) == sp_prepend_children(
                    element_views(children@),
                    sp_read_children(table@, cur2@, (m - j) as nat),
                ),
            decreases m - j,
        {
            match Element::read(cur2, table) {
                Err(e) => {
                    return Err(e);
                },
                Ok((child, rest)) => {
                    let ghost cv = element_views(children@);
                    let ghost childm = child@;
                    children.push(child);
                    proof {
                        assert(element_views(children@) =~= cv.push(childm));
                        assert(cv.push(childm) =~= cv + seq![childm]);
                        match sp_read_children(table@, rest@, (m - j - 1) as nat) {
                            Ok(p) => {
                                assert((cv + seq![childm]) + p.0 =~= cv + (seq![childm] + p.0));
                            },
                            Err(_) => {},
                        }
                    }
                    cur2 = rest;
                },
            }
            j = j + 1;
        }
        let result = Element { name, attributes: attrs, children };
        proof {
            match sp_read_children(table@, s4v, m as nat) {
                Ok(p) => {
                    assert(element_views(result.children@) + Seq::<SpecElement>::empty() =~=
                    element_views(result.children@));
                },
                Err(_) => {},
            }
            lemma_element_models_pointwise(result.children@);
            assert(result@.children =~= element_views(result.children@));
        }
        Ok((result, cur2))
    }
}

} // verus!
