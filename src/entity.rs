//! Entity keys and entities, with their mathematical views.
use vstd::prelude::*;

verus! {

/// Identifies an entity of the deployment: its type and its id.
pub struct EntityKey {
    pub entity_type: String,
    pub entity_id: String,
}

/// The view of a key: its type and its id as character sequences.
pub type KeyView = (Seq<char>, Seq<char>);

/// The view of an entity: its attributes, in order, as (name, value) pairs.
pub type EntityView = Seq<(Seq<char>, Seq<char>)>;

impl View for EntityKey {
    type V = KeyView;

    open spec fn view(&self) -> KeyView {
        (self.entity_type@, self.entity_id@)
    }
}

/// An entity: a list of named attribute values.
pub struct Entity {
    pub attrs: Vec<(String, String)>,
}

impl View for Entity {
    type V = EntityView;

    open spec fn view(&self) -> EntityView {
        self.attrs@.map_values(|a: (String, String)| (a.0@, a.1@))
    }
}

/// The view of a cached value: `None` is a tombstone, an entity known to be absent.
pub open spec fn value_view(v: Option<Entity>) -> Option<EntityView> {
    match v {
        Some(e) => Some(e@),
        None => None,
    }
}

/// Weight of a tombstone in an entity cache.
pub const TOMBSTONE_WEIGHT: u64 = 8;

/// Fixed weight of an entity, besides its attributes.
pub const ENTITY_BASE_WEIGHT: u64 = 16;

/// Fixed weight of one attribute, besides its name and value.
pub const ATTR_BASE_WEIGHT: u64 = 8;

/// The weight of a list of attributes: a fixed amount per attribute plus the
/// characters of its name and its value.
pub open spec fn attrs_weight(attrs: EntityView) -> nat
    decreases attrs.len(),
{
    if attrs.len() == 0 {
        0
    } else {
        (attrs_weight(attrs.drop_last()) + ATTR_BASE_WEIGHT + attrs.last().0.len()
            + attrs.last().1.len()) as nat
    }
}

/// `n`, or the largest `u64` where `n` is larger.
pub open spec fn capped(n: nat) -> nat {
    if n > u64::MAX { u64::MAX as nat } else { n }
}

/// The weight of a cached value, capped at the largest `u64`.
pub open spec fn value_weight(v: Option<EntityView>) -> nat {
    match v {
        None => TOMBSTONE_WEIGHT as nat,
        Some(e) => capped((ENTITY_BASE_WEIGHT + attrs_weight(e)) as nat),
    }
}

impl EntityKey {
    pub fn new(entity_type: String, entity_id: String) -> (r: EntityKey)
        ensures
            r@ == (entity_type@, entity_id@),
    {
        EntityKey { entity_type, entity_id }
    }

    /// A copy of the key.
    pub fn duplicate(&self) -> (r: EntityKey)
        ensures
            r@ == self@,
    {
        EntityKey { entity_type: self.entity_type.clone(), entity_id: self.entity_id.clone() }
    }

    /// Whether two keys name the same entity.
    pub fn same(&self, other: &EntityKey) -> (r: bool)
        ensures
            r == (self@ == other@),
    {
        self.entity_type == other.entity_type && self.entity_id == other.entity_id
    }
}

impl Entity {
    pub fn new(attrs: Vec<(String, String)>) -> (r: Entity)
        ensures
            r.attrs == attrs,
    {
        Entity { attrs }
    }

    /// A copy of the entity.
    pub fn duplicate(&self) -> (r: Entity)
        ensures
            r@ == self@,
    {
        let mut attrs: Vec<(String, String)> = Vec::new();
        let mut i: usize = 0;
        while i < self.attrs.len()
            invariant
                i <= self.attrs.len(),
                attrs@.len() == i,
                forall|j: int| 0 <= j < i ==> (#[trigger] attrs@[j]).0@ == self.attrs@[j].0@
                    && attrs@[j].1@ == self.attrs@[j].1@,
            decreases self.attrs.len() - i,
        {
            attrs.push((self.attrs[i].0.clone(), self.attrs[i].1.clone()));
            i = i + 1;
        }
        let r = Entity { attrs };
        assert(r@ =~= self@);
        r
    }

    /// The value of the attribute `name`, if the entity has it.
    pub fn get(&self, name: &String) -> (r: Option<&String>)
        ensures
            match r {
                Some(v) => attr_value(self@, name@) == Some(v@),
                None => attr_value(self@, name@) == None::<Seq<char>>,
            },
    {
        let ghost e = self@;
        let mut i: usize = 0;
        assert(e.subrange(0, e.len() as int) =~= e);
        while i < self.attrs.len()
            invariant
                i <= self.attrs.len(),
                e == self@,
                attr_value(e, name@) == attr_value(e.subrange(i as int, e.len() as int), name@),
            decreases self.attrs.len() - i,
        {
            proof {
                assert(self@[i as int] == (self.attrs@[i as int].0@, self.attrs@[i as int].1@));
                let rest = e.subrange(i as int, e.len() as int);
                assert(rest[0] == e[i as int]);
                assert(rest.subrange(1, rest.len() as int) =~= e.subrange(i + 1, e.len() as int));
            }
            if self.attrs[i].0 == *name {
                return Some(&self.attrs[i].1);
            }
            i = i + 1;
        }
        None
    }
}

/// The value of the first attribute named `name`, if there is one.
pub open spec fn attr_value(e: EntityView, name: Seq<char>) -> Option<Seq<char>>
    decreases e.len(),
{
    if e.len() == 0 {
        None
    } else if e[0].0 == name {
        Some(e[0].1)
    } else {
        attr_value(e.subrange(1, e.len() as int), name)
    }
}

/// The weight of a cached value, as `value_weight` gives it.
pub fn weight_of(v: &Option<Entity>) -> (r: u64)
    ensures
        r as nat == value_weight(value_view(*v)),
{
    match v {
        None => TOMBSTONE_WEIGHT,
        Some(e) => {
            let mut w: u64 = ENTITY_BASE_WEIGHT;
            let mut i: usize = 0;
            while i < e.attrs.len()
                invariant
                    i <= e.attrs.len(),
                    w as nat == capped(
                        (ENTITY_BASE_WEIGHT + attrs_weight(e@.subrange(0, i as int))) as nat,
                    ),
                decreases e.attrs.len() - i,
            {
                let a = &e.attrs[i];
                let n = a.0.as_str().unicode_len() as u64;
                let v = a.1.as_str().unicode_len() as u64;
                proof {
                    assert(e@.subrange(0, i as int + 1).drop_last() =~= e@.subrange(0, i as int));
                }
                w = w.saturating_add(ATTR_BASE_WEIGHT).saturating_add(n).saturating_add(v);
                i = i + 1;
            }
            assert(e@.subrange(0, e@.len() as int) =~= e@);
            w
        },
    }
}

} // verus!
