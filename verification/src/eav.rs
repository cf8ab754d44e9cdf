use vstd::prelude::*;

use crate::content::{address_eq, address_of, Address, AddressableContent};
use vstd::utf8::encode_utf8;
use crate::error::HolochainError;

verus! {

/// The closed set of attributes a triple can carry.  The three meta
/// kinds — a held link, a removed link, and an update pointer — drive
/// the aspect aggregator; the others are recorded for collaborators out
/// of this core's scope.
#[derive(Debug, PartialEq, Eq)]
pub enum Attribute {
    CrudStatus,
    CrudLink,
    LinkTag(String, String),
    RemovedLink(String, String),
    PendingEntry,
}

/// The mathematical value of an `Attribute`.
pub enum AttributeV {
    CrudStatus,
    CrudLink,
    LinkTag(Seq<char>, Seq<char>),
    RemovedLink(Seq<char>, Seq<char>),
    PendingEntry,
}

impl View for Attribute {
    type V = AttributeV;

    open spec fn view(&self) -> AttributeV {
        match self {
            Attribute::CrudStatus => AttributeV::CrudStatus,
            Attribute::CrudLink => AttributeV::CrudLink,
            Attribute::LinkTag(t, g) => AttributeV::LinkTag(t@, g@),
            Attribute::RemovedLink(t, g) => AttributeV::RemovedLink(t@, g@),
            Attribute::PendingEntry => AttributeV::PendingEntry,
        }
    }
}

impl Clone for Attribute {
    fn clone(&self) -> (r: Self)
        ensures
            r@ == self@,
    {
        match self {
            Attribute::CrudStatus => Attribute::CrudStatus,
            Attribute::CrudLink => Attribute::CrudLink,
            Attribute::LinkTag(t, g) => Attribute::LinkTag(t.clone(), g.clone()),
            Attribute::RemovedLink(t, g) => Attribute::RemovedLink(t.clone(), g.clone()),
            Attribute::PendingEntry => Attribute::PendingEntry,
        }
    }
}

/// True of two attributes with the same value.
pub fn attribute_eq(a: &Attribute, b: &Attribute) -> (r: bool)
    ensures
        r == (a@ == b@),
{
    match (a, b) {
        (Attribute::CrudStatus, Attribute::CrudStatus) => true,
        (Attribute::CrudLink, Attribute::CrudLink) => true,
        (Attribute::LinkTag(t1, g1), Attribute::LinkTag(t2, g2)) => *t1 == *t2 && *g1 == *g2,
        (Attribute::RemovedLink(t1, g1), Attribute::RemovedLink(t2, g2)) => *t1 == *t2 && *g1
            == *g2,
        (Attribute::PendingEntry, Attribute::PendingEntry) => true,
        _ => false,
    }
}

/// The attribute kinds the aspect aggregator reads: held links, removed
/// links, and update pointers.
pub open spec fn is_meta_attribute(a: AttributeV) -> bool {
    match a {
        AttributeV::LinkTag(_, _) => true,
        AttributeV::RemovedLink(_, _) => true,
        AttributeV::CrudLink => true,
        _ => false,
    }
}

impl Attribute {
    /// Whether the aggregator reads triples under this attribute.
    pub fn is_meta(&self) -> (r: bool)
        ensures
            r == is_meta_attribute(self@),
    {
        match self {
            Attribute::LinkTag(_, _) => true,
            Attribute::RemovedLink(_, _) => true,
            Attribute::CrudLink => true,
            _ => false,
        }
    }
}

/// An immutable relationship: (entity address, attribute, value address).
#[derive(Debug, PartialEq, Eq)]
pub struct EntityAttributeValue {
    entity: Address,
    attribute: Attribute,
    value: Address,
}

/// The mathematical value of a triple.
pub struct EavV {
    pub entity: Seq<char>,
    pub attribute: AttributeV,
    pub value: Seq<char>,
}

impl View for EntityAttributeValue {
    type V = EavV;

    closed spec fn view(&self) -> EavV {
        EavV { entity: self.entity@, attribute: self.attribute@, value: self.value@ }
    }
}

impl Clone for EntityAttributeValue {
    fn clone(&self) -> (r: Self)
        ensures
            r@ == self@,
    {
        EntityAttributeValue {
            entity: self.entity.clone(),
            attribute: self.attribute.clone(),
            value: self.value.clone(),
        }
    }
}

impl EntityAttributeValue {
    pub fn new(entity: &Address, attribute: &Attribute, value: &Address) -> (r: Self)
        ensures
            r@ == (EavV { entity: entity@, attribute: attribute@, value: value@ }),
    {
        EntityAttributeValue {
            entity: entity.clone(),
            attribute: attribute.clone(),
            value: value.clone(),
        }
    }

    pub fn entity(&self) -> (r: Address)
        ensures
            r@ == self@.entity,
    {
        self.entity.clone()
    }

    pub fn attribute(&self) -> (r: Attribute)
        ensures
            r@ == self@.attribute,
    {
        self.attribute.clone()
    }

    pub fn value(&self) -> (r: Address)
        ensures
            r@ == self@.value,
    {
        self.value.clone()
    }
}

/// True of two triples with the same value.
pub fn eav_eq(a: &EntityAttributeValue, b: &EntityAttributeValue) -> (r: bool)
    ensures
        r == (a@ == b@),
{
    address_eq(&a.entity, &b.entity) && attribute_eq(&a.attribute, &b.attribute) && address_eq(
        &a.value,
        &b.value,
    )
}

/// The view of an optional entity or value constraint.
pub open spec fn opt_addr_view(o: Option<Address>) -> Option<Seq<char>> {
    match o {
        Some(a) => Some(a@),
        None => None,
    }
}

/// The view of an optional attribute constraint.
pub open spec fn opt_attr_view(o: Option<Attribute>) -> Option<AttributeV> {
    match o {
        Some(a) => Some(a@),
        None => None,
    }
}

/// Whether a triple matches a query: every constrained field must be
/// equal, an unconstrained field matches anything.
pub open spec fn eav_matches(
    t: EavV,
    entity: Option<Seq<char>>,
    attribute: Option<AttributeV>,
    value: Option<Seq<char>>,
) -> bool {
    &&& (entity matches Some(e) ==> t.entity == e)
    &&& (attribute matches Some(a) ==> t.attribute == a)
    &&& (value matches Some(v) ==> t.value == v)
}

/// What a query must return: exactly the stored triples matching every
/// constrained field, without duplicates.
pub open spec fn eav_query_result(
    r: Seq<EntityAttributeValue>,
    store: Set<EavV>,
    entity: Option<Seq<char>>,
    attribute: Option<AttributeV>,
    value: Option<Seq<char>>,
) -> bool {
    &&& forall|i: int|
        0 <= i < r.len() ==> store.contains(#[trigger] r[i]@) && eav_matches(
            r[i]@,
            entity,
            attribute,
            value,
        )
    &&& forall|t: EavV|
        store.contains(t) && eav_matches(t, entity, attribute, value) ==> exists|i: int|
            0 <= i < r.len() && #[trigger] r[i]@ == t
    &&& forall|i: int, j: int| 0 <= i < j < r.len() ==> r[i]@ != r[j]@
}

/// An immutable triple index with filtered lookup.  Triples are
/// idempotently added and never deleted: removal is modeled by adding a
/// new triple under a tombstone attribute.
pub trait EntityAttributeValueStorage: Sized {
    /// The set of triples held.
    spec fn eav_view(&self) -> Set<EavV>;

    /// Internal well-formedness.
    spec fn wf(&self) -> bool;

    /// Idempotent insert.
    fn add_eav(&mut self, eav: &EntityAttributeValue) -> (r: Result<(), HolochainError>)
        requires
            old(self).wf(),
        ensures
            final(self).wf(),
            r is Ok,
            final(self).eav_view() == old(self).eav_view().insert(eav@),
    ;

    /// Filtered lookup: `None` leaves a field unconstrained; the result
    /// holds exactly the stored triples matching every constrained
    /// field.  A query with no match returns the empty set, never an
    /// error.
    fn fetch_eav(
        &self,
        entity: Option<Address>,
        attribute: Option<Attribute>,
        value: Option<Address>,
    ) -> (r: Result<Vec<EntityAttributeValue>, HolochainError>)
        requires
            self.wf(),
        ensures
            r matches Ok(v) && eav_query_result(
                v@,
                self.eav_view(),
                opt_addr_view(entity),
                opt_attr_view(attribute),
                opt_addr_view(value),
            ),
    ;
}

/// True when some element of the list has the triple's value.
fn vec_contains_eav(v: &Vec<EntityAttributeValue>, t: &EntityAttributeValue) -> (r: bool)
    ensures
        r == exists|i: int| 0 <= i < v@.len() && #[trigger] v@[i]@ == t@,
{
    let mut i: usize = 0;
    while i < v.len()
        invariant
            i <= v@.len(),
            forall|j: int| 0 <= j < i ==> v@[j]@ != t@,
        decreases v@.len() - i,
    {
        if eav_eq(&v[i], t) {
            return true;
        }
        i = i + 1;
    }
    false
}

/// An in-memory triple index: a duplicate-free list of triples behind
/// the storage contract.
pub struct ExampleEntityAttributeValueStorage {
    eavs: Vec<EntityAttributeValue>,
}

impl ExampleEntityAttributeValueStorage {
    pub fn new() -> (r: ExampleEntityAttributeValueStorage)
        ensures
            r.wf(),
            r.eav_view() == Set::<EavV>::empty(),
    {
        let r = ExampleEntityAttributeValueStorage { eavs: Vec::new() };
        proof {
            assert(r.eav_view() =~= Set::<EavV>::empty());
        }
        r
    }
}

impl EntityAttributeValueStorage for ExampleEntityAttributeValueStorage {
    closed spec fn eav_view(&self) -> Set<EavV> {
        Set::new(
            |t: EavV| exists|i: int| 0 <= i < self.eavs@.len() && #[trigger] self.eavs@[i]@ == t,
        )
    }

    closed spec fn wf(&self) -> bool {
        forall|i: int, j: int| 0 <= i < j < self.eavs@.len() ==> self.eavs@[i]@ != self.eavs@[j]@
    }

    fn add_eav(&mut self, eav: &EntityAttributeValue) -> (r: Result<(), HolochainError>)
    {
        if vec_contains_eav(&self.eavs, eav) {
            proof {
                assert(self.eav_view() =~= self.eav_view().insert(eav@));
            }
            Ok(())
        } else {
            self.eavs.push(eav.clone());
            proof {
                let prev = old(self).eavs@;
                let now = self.eavs@;
                assert forall|t: EavV| self.eav_view().contains(t) implies old(self).eav_view()
                    .insert(eav@).contains(t) by {
                    let i = choose|i: int| 0 <= i < now.len() && #[trigger] now[i]@ == t;
                    if i < prev.len() {
                        assert(prev[i]@ == t);
                    }
                }
                assert forall|t: EavV| old(self).eav_view().insert(eav@).contains(t) implies self
                    .eav_view().contains(t) by {
                    if old(self).eav_view().contains(t) {
                        let i = choose|i: int| 0 <= i < prev.len() && #[trigger] prev[i]@ == t;
                        assert(now[i]@ == t);
                    } else {
                        assert(now[prev.len() as int]@ == t);
                    }
                }
                assert(self.eav_view() =~= old(self).eav_view().insert(eav@));
            }
            Ok(())
        }
    }

    fn fetch_eav(
        &self,
        entity: Option<Address>,
        attribute: Option<Attribute>,
        value: Option<Address>,
    ) -> (r: Result<Vec<EntityAttributeValue>, HolochainError>)
    {
        let mut out: Vec<EntityAttributeValue> = Vec::new();
        let mut i: usize = 0;
        while i < self.eavs.len()
            invariant
                self.wf(),
                i <= self.eavs@.len(),
                forall|k: int|
                    0 <= k < out@.len() ==> self.eav_view().contains(#[trigger] out@[k]@)
                        && eav_matches(
                        out@[k]@,
                        opt_addr_view(entity),
                        opt_attr_view(attribute),
                        opt_addr_view(value),
                    ),
                forall|j: int|
                    0 <= j < i && eav_matches(
                        #[trigger] self.eavs@[j]@,
                        opt_addr_view(entity),
                        opt_attr_view(attribute),
                        opt_addr_view(value),
                    ) ==> exists|k: int| 0 <= k < out@.len() && #[trigger] out@[k]@
                        == self.eavs@[j]@,
                forall|k1: int, k2: int| 0 <= k1 < k2 < out@.len() ==> out@[k1]@ != out@[k2]@,
            decreases self.eavs@.len() - i,
        {
            let eav = &self.eavs[i];
            let ghost tv = self.eavs@[i as int]@;
            let ghost out_before = out@;
            let entity_ok = match &entity {
                Some(e) => address_eq(e, &eav.entity),
                None => true,
            };
            let attribute_ok = match &attribute {
                Some(a) => attribute_eq(a, &eav.attribute),
                None => true,
            };
            let value_ok = match &value {
                Some(v) => address_eq(v, &eav.value),
                None => true,
            };
            if entity_ok && attribute_ok && value_ok {
                let already = vec_contains_eav(&out, eav);
                if !already {
                    out.push(eav.clone());
                    proof {
                        assert(out@[out@.len() - 1]@ == tv);
                    }
                }
                proof {
                    assert(self.eavs@[i as int]@ == tv);
                    assert(self.eav_view().contains(tv));
                    assert(exists|k: int| 0 <= k < out@.len() && #[trigger] out@[k]@ == tv);
                }
            }
            proof {
                assert forall|j: int|
                    0 <= j <= i && eav_matches(
                        #[trigger] self.eavs@[j]@,
                        opt_addr_view(entity),
                        opt_attr_view(attribute),
                        opt_addr_view(value),
                    ) implies exists|k: int| 0 <= k < out@.len() && #[trigger] out@[k]@
                    == self.eavs@[j]@ by {
                    if j < i {
                        let k = choose|k: int|
                            0 <= k < out_before.len() && #[trigger] out_before[k]@
                                == self.eavs@[j]@;
                        assert(out@[k]@ == self.eavs@[j]@);
                    }
                }
            }
            i = i + 1;
        }
        proof {
            assert forall|t: EavV|
                self.eav_view().contains(t) && eav_matches(
                    t,
                    opt_addr_view(entity),
                    opt_attr_view(attribute),
                    opt_addr_view(value),
                ) implies exists|k: int| 0 <= k < out@.len() && #[trigger] out@[k]@ == t by {
                let j = choose|j: int| 0 <= j < self.eavs@.len() && #[trigger] self.eavs@[j]@ == t;
                assert(eav_matches(
                    self.eavs@[j]@,
                    opt_addr_view(entity),
                    opt_attr_view(attribute),
                    opt_addr_view(value),
                ));
            }
        }
        Ok(out)
    }
}

/// Drives a triple store through the query scenarios of its contract.
pub struct EavTestSuite;

impl EavTestSuite {
    /// Round-trips one triple through a store: before the add a
    /// fully-constrained query matches nothing; after it, every way of
    /// constraining a subset of fields returns exactly that triple.
    pub fn test_round_trip_test<
        S: EntityAttributeValueStorage,
        A: AddressableContent,
        B: AddressableContent,
    >(
        mut eav_storage: S,
        entity_content: A,
        attribute: Attribute,
        value_content: B,
    )
        requires
            eav_storage.wf(),
            eav_storage.eav_view() == Set::<EavV>::empty(),
    {
        let entity_address = entity_content.address();
        let value_address = value_content.address();
        let eav = EntityAttributeValue::new(&entity_address, &attribute, &value_address);
        let ghost t = eav@;

        // A query with zero matches returns the empty set, never an error.
        let r0 = eav_storage.fetch_eav(
            Some(entity_address.clone()),
            Some(attribute.clone()),
            Some(value_address.clone()),
        );
        let v0 = match r0 {
            Ok(v) => v,
            Err(_) => {
                proof {
                    assert(false);
                }
                return ;
            },
        };
        proof {
            if v0@.len() > 0 {
                assert(Set::<EavV>::empty().contains(v0@[0]@));
            }
            assert(v0@.len() == 0);
        }

        let ra = eav_storage.add_eav(&eav);
        assert(ra is Ok);
        let ghost store = eav_storage.eav_view();
        proof {
            assert(store =~= set![t]);
        }

        // Every subset of constrained fields returns exactly the triple.
        let r1 = eav_storage.fetch_eav(
            Some(entity_address.clone()),
            Some(attribute.clone()),
            Some(value_address.clone()),
        );
        proof {
            Self::lemma_single(r1, store, t, Some(entity_address@), Some(attribute@), Some(value_address@));
        }
        let r2 = eav_storage.fetch_eav(
            None,
            Some(attribute.clone()),
            Some(value_address.clone()),
        );
        proof {
            Self::lemma_single(r2, store, t, None, Some(attribute@), Some(value_address@));
        }
        let r3 = eav_storage.fetch_eav(
            Some(entity_address.clone()),
            None,
            Some(value_address.clone()),
        );
        proof {
            Self::lemma_single(r3, store, t, Some(entity_address@), None, Some(value_address@));
        }
        let r4 = eav_storage.fetch_eav(
            Some(entity_address.clone()),
            Some(attribute.clone()),
            None,
        );
        proof {
            Self::lemma_single(r4, store, t, Some(entity_address@), Some(attribute@), None);
        }
        let r5 = eav_storage.fetch_eav(None, None, None);
        proof {
            Self::lemma_single(r5, store, t, None, None, None);
        }
    }

    /// One entity linking to three distinct values under one attribute:
    /// the entity-and-attribute query returns all three triples, and the
    /// attribute-and-value query for each value returns exactly the one
    /// triple linking back to the entity.  A further entity with the same
    /// content — so the same address — referencing two of the values
    /// shows that duplicate triples collapse.  Runs, and returns true,
    /// exactly when the three contents decode as `A` and their addresses
    /// are pairwise distinct.
    pub fn test_one_to_many<A: AddressableContent, S: EntityAttributeValueStorage>(
        mut eav_storage: S,
    ) -> (r: bool)
        requires
            eav_storage.wf(),
            eav_storage.eav_view() == Set::<EavV>::empty(),
        ensures
            r == ({
                let foo = encode_utf8("foo"@);
                let bar = encode_utf8("bar"@);
                let baz = encode_utf8("baz"@);
                A::decodable(foo) && A::decodable(bar) && A::decodable(baz) && address_of(foo)
                    != address_of(bar) && address_of(foo) != address_of(baz) && address_of(bar)
                    != address_of(baz)
            }),
    {
        let foo_bytes = "foo".as_bytes_vec();
        let bar_bytes = "bar".as_bytes_vec();
        let baz_bytes = "baz".as_bytes_vec();
        let one = match A::try_from_content(&foo_bytes) {
            Some(v) => v,
            None => {
                return false;
            },
        };
        // It can reference itself, why not: the first of the many shares
        // the entity's content, and so its address.
        let many_one = match A::try_from_content(&foo_bytes) {
            Some(v) => v,
            None => {
                proof {
                    assert(false);
                }
                return false;
            },
        };
        let many_two = match A::try_from_content(&bar_bytes) {
            Some(v) => v,
            None => {
                return false;
            },
        };
        let many_three = match A::try_from_content(&baz_bytes) {
            Some(v) => v,
            None => {
                return false;
            },
        };
        let a_one = one.address();
        let a_many_one = many_one.address();
        let a_many_two = many_two.address();
        let a_many_three = many_three.address();
        if address_eq(&a_many_one, &a_many_two) {
            return false;
        }
        if address_eq(&a_many_one, &a_many_three) {
            return false;
        }
        if address_eq(&a_many_two, &a_many_three) {
            return false;
        }
        let attribute = Attribute::LinkTag(String::from_str("one_to_many"), String::new());
        let ghost t1 = (EavV { entity: a_one@, attribute: attribute@, value: a_many_one@ });
        let ghost t2 = (EavV { entity: a_one@, attribute: attribute@, value: a_many_two@ });
        let ghost t3 = (EavV { entity: a_one@, attribute: attribute@, value: a_many_three@ });

        let ra = eav_storage.add_eav(&EntityAttributeValue::new(&a_one, &attribute, &a_many_one));
        assert(ra is Ok);
        let ra = eav_storage.add_eav(&EntityAttributeValue::new(&a_one, &attribute, &a_many_two));
        assert(ra is Ok);
        let ra = eav_storage.add_eav(
            &EntityAttributeValue::new(&a_one, &attribute, &a_many_three),
        );
        assert(ra is Ok);

        // An extra entity of the same content referencing two of the many:
        // its address equals the first entity's, so nothing new is stored.
        let two = match A::try_from_content(&foo_bytes) {
            Some(v) => v,
            None => {
                proof {
                    assert(false);
                }
                return false;
            },
        };
        let a_two = two.address();
        assert(a_two@ == a_one@);
        let ra = eav_storage.add_eav(&EntityAttributeValue::new(&a_two, &attribute, &a_many_one));
        assert(ra is Ok);
        let ra = eav_storage.add_eav(
            &EntityAttributeValue::new(&a_two, &attribute, &a_many_three),
        );
        assert(ra is Ok);

        let ghost store = eav_storage.eav_view();
        proof {
            assert(store =~= set![t1, t2, t3]);
        }

        // The many results for the one.
        let rm = eav_storage.fetch_eav(Some(a_one.clone()), Some(attribute.clone()), None);
        proof {
            Self::lemma_exactly_three(
                rm,
                store,
                t1,
                t2,
                t3,
                Some(a_one@),
                Some(attribute@),
                None,
            );
        }

        // The one for each of the many results.
        let r1 = eav_storage.fetch_eav(None, Some(attribute.clone()), Some(a_many_one.clone()));
        proof {
            Self::lemma_exactly_one(r1, store, t1, None, Some(attribute@), Some(a_many_one@));
        }
        let r2 = eav_storage.fetch_eav(None, Some(attribute.clone()), Some(a_many_two.clone()));
        proof {
            Self::lemma_exactly_one(r2, store, t2, None, Some(attribute@), Some(a_many_two@));
        }
        let r3 = eav_storage.fetch_eav(None, Some(attribute.clone()), Some(a_many_three.clone()));
        proof {
            Self::lemma_exactly_one(r3, store, t3, None, Some(attribute@), Some(a_many_three@));
        }
        true
    }

    /// Many entities linking to one value under one attribute: the
    /// attribute-and-value query returns all three triples, and the
    /// entity-and-attribute query for each entity returns exactly the one
    /// triple from that entity.  Runs, and returns true, exactly when the
    /// three contents decode as `A` and their addresses are pairwise
    /// distinct.
    pub fn test_many_to_one<A: AddressableContent, S: EntityAttributeValueStorage>(
        mut eav_storage: S,
    ) -> (r: bool)
        requires
            eav_storage.wf(),
            eav_storage.eav_view() == Set::<EavV>::empty(),
        ensures
            r == ({
                let foo = encode_utf8("foo"@);
                let bar = encode_utf8("bar"@);
                let baz = encode_utf8("baz"@);
                A::decodable(foo) && A::decodable(bar) && A::decodable(baz) && address_of(foo)
                    != address_of(bar) && address_of(foo) != address_of(baz) && address_of(bar)
                    != address_of(baz)
            }),
    {
        let foo_bytes = "foo".as_bytes_vec();
        let bar_bytes = "bar".as_bytes_vec();
        let baz_bytes = "baz".as_bytes_vec();
        let one = match A::try_from_content(&foo_bytes) {
            Some(v) => v,
            None => {
                return false;
            },
        };
        let many_one = match A::try_from_content(&foo_bytes) {
            Some(v) => v,
            None => {
                proof {
                    assert(false);
                }
                return false;
            },
        };
        let many_two = match A::try_from_content(&bar_bytes) {
            Some(v) => v,
            None => {
                return false;
            },
        };
        let many_three = match A::try_from_content(&baz_bytes) {
            Some(v) => v,
            None => {
                return false;
            },
        };
        let a_one = one.address();
        let a_many_one = many_one.address();
        let a_many_two = many_two.address();
        let a_many_three = many_three.address();
        if address_eq(&a_many_one, &a_many_two) {
            return false;
        }
        if address_eq(&a_many_one, &a_many_three) {
            return false;
        }
        if address_eq(&a_many_two, &a_many_three) {
            return false;
        }
        let attribute = Attribute::LinkTag(String::from_str("many_to_one"), String::new());
        let ghost t1 = (EavV { entity: a_many_one@, attribute: attribute@, value: a_one@ });
        let ghost t2 = (EavV { entity: a_many_two@, attribute: attribute@, value: a_one@ });
        let ghost t3 = (EavV { entity: a_many_three@, attribute: attribute@, value: a_one@ });

        let ra = eav_storage.add_eav(&EntityAttributeValue::new(&a_many_one, &attribute, &a_one));
        assert(ra is Ok);
        let ra = eav_storage.add_eav(&EntityAttributeValue::new(&a_many_two, &attribute, &a_one));
        assert(ra is Ok);
        let ra = eav_storage.add_eav(
            &EntityAttributeValue::new(&a_many_three, &attribute, &a_one),
        );
        assert(ra is Ok);

        // An extra value of the same content referenced by two of the
        // many: its address equals the first value's, so nothing new is
        // stored.
        let two = match A::try_from_content(&foo_bytes) {
            Some(v) => v,
            None => {
                proof {
                    assert(false);
                }
                return false;
            },
        };
        let a_two = two.address();
        assert(a_two@ == a_one@);
        let ra = eav_storage.add_eav(&EntityAttributeValue::new(&a_many_one, &attribute, &a_two));
        assert(ra is Ok);
        let ra = eav_storage.add_eav(
            &EntityAttributeValue::new(&a_many_three, &attribute, &a_two),
        );
        assert(ra is Ok);

        let ghost store = eav_storage.eav_view();
        proof {
            assert(store =~= set![t1, t2, t3]);
        }

        // The many referencing the one.
        let rm = eav_storage.fetch_eav(None, Some(attribute.clone()), Some(a_one.clone()));
        proof {
            Self::lemma_exactly_three(
                rm,
                store,
                t1,
                t2,
                t3,
                None,
                Some(attribute@),
                Some(a_one@),
            );
        }

        // The one for each of the many.
        let r1 = eav_storage.fetch_eav(Some(a_many_one.clone()), Some(attribute.clone()), None);
        proof {
            Self::lemma_exactly_one(r1, store, t1, Some(a_many_one@), Some(attribute@), None);
        }
        let r2 = eav_storage.fetch_eav(Some(a_many_two.clone()), Some(attribute.clone()), None);
        proof {
            Self::lemma_exactly_one(r2, store, t2, Some(a_many_two@), Some(attribute@), None);
        }
        let r3 = eav_storage.fetch_eav(Some(a_many_three.clone()), Some(attribute.clone()), None);
        proof {
            Self::lemma_exactly_one(r3, store, t3, Some(a_many_three@), Some(attribute@), None);
        }
        true
    }

    /// A query known to obey the query contract, in a store where exactly
    /// one triple matches, returns exactly that triple.
    proof fn lemma_exactly_one(
        r: Result<Vec<EntityAttributeValue>, HolochainError>,
        store: Set<EavV>,
        t: EavV,
        entity: Option<Seq<char>>,
        attribute: Option<AttributeV>,
        value: Option<Seq<char>>,
    )
        requires
            r matches Ok(v) && eav_query_result(v@, store, entity, attribute, value),
            store.contains(t),
            eav_matches(t, entity, attribute, value),
            forall|u: EavV|
                store.contains(u) && eav_matches(u, entity, attribute, value) ==> u == t,
        ensures
            r matches Ok(v) && v@.len() == 1 && v@[0]@ == t,
    {
        let v = r->Ok_0;
        assert(exists|i: int| 0 <= i < v@.len() && #[trigger] v@[i]@ == t);
        let i = choose|i: int| 0 <= i < v@.len() && #[trigger] v@[i]@ == t;
        assert(v@[0]@ == t);
        if v@.len() > 1 {
            assert(v@[1]@ == t);
        }
        assert(v@.len() == 1);
    }

    /// A query known to obey the query contract, in a store of exactly
    /// three distinct triples all matching it, returns exactly the three.
    proof fn lemma_exactly_three(
        r: Result<Vec<EntityAttributeValue>, HolochainError>,
        store: Set<EavV>,
        t1: EavV,
        t2: EavV,
        t3: EavV,
        entity: Option<Seq<char>>,
        attribute: Option<AttributeV>,
        value: Option<Seq<char>>,
    )
        requires
            r matches Ok(v) && eav_query_result(v@, store, entity, attribute, value),
            store =~= set![t1, t2, t3],
            t1 != t2,
            t1 != t3,
            t2 != t3,
            eav_matches(t1, entity, attribute, value),
            eav_matches(t2, entity, attribute, value),
            eav_matches(t3, entity, attribute, value),
        ensures
            r matches Ok(v) && v@.len() == 3 && (exists|i: int|
                0 <= i < v@.len() && #[trigger] v@[i]@ == t1) && (exists|i: int|
                0 <= i < v@.len() && #[trigger] v@[i]@ == t2) && (exists|i: int|
                0 <= i < v@.len() && #[trigger] v@[i]@ == t3) && (forall|i: int|
                0 <= i < v@.len() ==> #[trigger] v@[i]@ == t1 || v@[i]@ == t2 || v@[i]@ == t3),
    {
        let v = r->Ok_0;
        assert(store.contains(t1) && store.contains(t2) && store.contains(t3));
        assert(exists|i: int| 0 <= i < v@.len() && #[trigger] v@[i]@ == t1);
        assert(exists|i: int| 0 <= i < v@.len() && #[trigger] v@[i]@ == t2);
        assert(exists|i: int| 0 <= i < v@.len() && #[trigger] v@[i]@ == t3);
        let k1 = choose|i: int| 0 <= i < v@.len() && #[trigger] v@[i]@ == t1;
        let k2 = choose|i: int| 0 <= i < v@.len() && #[trigger] v@[i]@ == t2;
        let k3 = choose|i: int| 0 <= i < v@.len() && #[trigger] v@[i]@ == t3;
        assert(k1 != k2 && k1 != k3 && k2 != k3);
        assert(v@.len() >= 3);
        if v@.len() > 3 {
            assert(v@[0]@ == t1 || v@[0]@ == t2 || v@[0]@ == t3);
            assert(v@[1]@ == t1 || v@[1]@ == t2 || v@[1]@ == t3);
            assert(v@[2]@ == t1 || v@[2]@ == t2 || v@[2]@ == t3);
            assert(v@[3]@ == t1 || v@[3]@ == t2 || v@[3]@ == t3);
            assert(false);
        }
    }

    /// In a one-triple store, a query whose result is known to obey the
    /// query contract and to match the triple returns exactly it.
    proof fn lemma_single(
        r: Result<Vec<EntityAttributeValue>, HolochainError>,
        store: Set<EavV>,
        t: EavV,
        entity: Option<Seq<char>>,
        attribute: Option<AttributeV>,
        value: Option<Seq<char>>,
    )
        requires
            store =~= set![t],
            r matches Ok(v) && eav_query_result(v@, store, entity, attribute, value),
            eav_matches(t, entity, attribute, value),
        ensures
            r matches Ok(v) && v@.len() == 1 && v@[0]@ == t,
    {
        let v = r->Ok_0;
        assert(store.contains(t));
        assert(exists|i: int| 0 <= i < v@.len() && #[trigger] v@[i]@ == t);
        let i = choose|i: int| 0 <= i < v@.len() && #[trigger] v@[i]@ == t;
        assert(v@[0]@ == t);
        if v@.len() > 1 {
            assert(v@[1]@ == t);
        }
        assert(v@.len() == 1);
    }
}

/// One-to-many: in a store whose triples are exactly one entity's
/// triples under one attribute to a list of distinct values, the
/// entity-and-attribute query matches all of them, and the
/// attribute-and-value query for each value matches exactly the one
/// triple linking back to the entity.
pub proof fn lemma_one_to_many(entity: Seq<char>, attribute: AttributeV, values: Seq<Seq<char>>, store: Set<EavV>)
    requires
        forall|t: EavV|
            store.contains(t) <==> exists|i: int| 0 <= i < values.len() && t == (EavV {
                entity: entity,
                attribute: attribute,
                value: values[i],
            }),
    ensures
        forall|t: EavV|
            store.contains(t) ==> eav_matches(t, Some(entity), Some(attribute), None),
        forall|i: int, t: EavV|
            0 <= i < values.len() ==> ((store.contains(t) && eav_matches(
                t,
                None,
                Some(attribute),
                Some(values[i]),
            )) <==> t == (EavV { entity: entity, attribute: attribute, value: values[i] })),
{
    assert forall|i: int, t: EavV|
        0 <= i < values.len() && store.contains(t) && eav_matches(
            t,
            None,
            Some(attribute),
            Some(values[i]),
        ) implies t == (EavV { entity: entity, attribute: attribute, value: values[i] }) by {
        let j = choose|j: int| 0 <= j < values.len() && t == (EavV {
            entity: entity,
            attribute: attribute,
            value: values[j],
        });
    }
    assert forall|i: int, t: EavV|
        0 <= i < values.len() && t == (EavV {
            entity: entity,
            attribute: attribute,
            value: values[i],
        }) implies store.contains(t) by {}
}

/// Many-to-one: the symmetric case, many entities sharing one value
/// under one attribute.  The attribute-and-value query matches all of
/// them, and the entity-and-attribute query for each entity matches
/// exactly the one triple from that entity.
pub proof fn lemma_many_to_one(entities: Seq<Seq<char>>, attribute: AttributeV, value: Seq<char>, store: Set<EavV>)
    requires
        forall|t: EavV|
            store.contains(t) <==> exists|i: int| 0 <= i < entities.len() && t == (EavV {
                entity: entities[i],
                attribute: attribute,
                value: value,
            }),
    ensures
        forall|t: EavV|
            store.contains(t) ==> eav_matches(t, None, Some(attribute), Some(value)),
        forall|i: int, t: EavV|
            0 <= i < entities.len() ==> ((store.contains(t) && eav_matches(
                t,
                Some(entities[i]),
                Some(attribute),
                None,
            )) <==> t == (EavV { entity: entities[i], attribute: attribute, value: value })),
{
    assert forall|i: int, t: EavV|
        0 <= i < entities.len() && store.contains(t) && eav_matches(
            t,
            Some(entities[i]),
            Some(attribute),
            None,
        ) implies t == (EavV { entity: entities[i], attribute: attribute, value: value }) by {
        let j = choose|j: int| 0 <= j < entities.len() && t == (EavV {
            entity: entities[j],
            attribute: attribute,
            value: value,
        });
    }
    assert forall|i: int, t: EavV|
        0 <= i < entities.len() && t == (EavV {
            entity: entities[i],
            attribute: attribute,
            value: value,
        }) implies store.contains(t) by {}
}

} // verus!
