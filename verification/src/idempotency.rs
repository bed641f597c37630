//! Idempotency keys: which keyed sections have run and still stand.

use vstd::prelude::*;
use vstd::string::*;

use crate::action::{value_contains_handle, Value, ValueView};
use crate::table::Table;

verus! {

/// Whether a keyed section's effects stand.
#[derive(Debug, Clone, Copy, PartialEq, Eq, Structural)]
pub enum IdempotencyStatus {
    /// They happened and were not undone: the section is not run again.
    Committed,
    /// They were undone: the section may run again.
    Reverted,
}

/// What is known of a key.
#[derive(Debug)]
pub struct IdempotencyState {
    pub status: IdempotencyStatus,
    /// The section's value, where it can be handed out again.
    pub value: Option<Value>,
}

/// What an [`IdempotencyState`] holds.
pub struct IdempotencyView {
    pub status: IdempotencyStatus,
    pub value: Option<ValueView>,
}

impl View for IdempotencyState {
    type V = IdempotencyView;

    open spec fn view(&self) -> IdempotencyView {
        IdempotencyView {
            status: self.status,
            value: match self.value {
                Some(v) => Some(v@),
                None => None,
            },
        }
    }
}

/// What is known of all keys. Nothing is ever forgotten.
#[derive(Debug)]
pub struct IdempotencyRegistry {
    states: Table<String, IdempotencyState>,
}

/// The keys of a registry and what is known of them.
pub type Keys = Map<Seq<char>, IdempotencyView>;

impl View for IdempotencyRegistry {
    type V = Keys;

    closed spec fn view(&self) -> Keys {
        self.states@.map_values(|s: IdempotencyState| s@)
    }
}

/// Whether a key's effects stand.
pub open spec fn is_committed(m: Keys, key: Seq<char>) -> bool {
    m.contains_key(key) && m[key].status is Committed
}

/// The value that a section with this key has without running, if its effects
/// stand. Where the value was not kept, it is the unit.
pub open spec fn standing_value(m: Keys, key: Seq<char>) -> Option<ValueView> {
    if is_committed(m, key) {
        match m[key].value {
            Some(v) => Some(v),
            None => Some(ValueView::Unit),
        }
    } else {
        None
    }
}

/// What is known once a section has run. A value with a handle inside is not
/// kept; a key whose effects stand already keeps what is known.
pub open spec fn committed(m: Keys, key: Seq<char>, value: ValueView) -> Keys {
    if is_committed(m, key) {
        m
    } else {
        m.insert(
            key,
            IdempotencyView {
                status: IdempotencyStatus::Committed,
                value: if crate::action::holds_handle(value) {
                    None
                } else {
                    Some(value)
                },
            },
        )
    }
}

/// What is known once a section's effects were undone.
pub open spec fn reverted(m: Keys, key: Seq<char>) -> Keys {
    if m.contains_key(key) {
        m.insert(key, IdempotencyView { status: IdempotencyStatus::Reverted, value: None })
    } else {
        m
    }
}

impl Default for IdempotencyRegistry {
    fn default() -> (r: Self)
        ensures
            r@ == Map::<Seq<char>, IdempotencyView>::empty(),
    {
        IdempotencyRegistry::new()
    }
}

impl IdempotencyRegistry {
    /// A registry that knows no key.
    pub fn new() -> (r: Self)
        ensures
            r@ == Map::<Seq<char>, IdempotencyView>::empty(),
    {
        let r = IdempotencyRegistry { states: Table::new() };
        assert(r@ =~= Map::empty());
        r
    }

    /// The value of a section whose effects stand: it is not to be run again.
    pub fn lookup_committed(&self, key: &str) -> (r: Option<Value>)
        ensures
            match r {
                Some(v) => standing_value(self@, key@) == Some(v@),
                None => standing_value(self@, key@) is None,
            },
    {
        match self.states.get(&key.to_owned()) {
            Some(s) => match s.status {
                IdempotencyStatus::Committed => match &s.value {
                    Some(v) => Some(v.clone()),
                    None => Some(Value::Unit),
                },
                IdempotencyStatus::Reverted => None,
            },
            None => None,
        }
    }

    /// Records that a section has run.
    pub fn commit(&mut self, key: &str, value: Value)
        ensures
            final(self)@ == committed(old(self)@, key@, value@),
    {
        let k = key.to_owned();
        let standing = match self.states.get(&k) {
            Some(s) => match s.status {
                IdempotencyStatus::Committed => true,
                IdempotencyStatus::Reverted => false,
            },
            None => false,
        };
        if !standing {
            let kept = if value_contains_handle(&value) {
                None
            } else {
                Some(value)
            };
            self.states.insert(
                k,
                IdempotencyState { status: IdempotencyStatus::Committed, value: kept },
            );
        }
        assert(self@ =~= committed(old(self)@, key@, value@));
    }

    /// Records that a section's effects were undone.
    pub fn revert(&mut self, key: &str)
        ensures
            final(self)@ == reverted(old(self)@, key@),
    {
        let k = key.to_owned();
        if self.states.contains(&k) {
            self.states.insert(
                k,
                IdempotencyState { status: IdempotencyStatus::Reverted, value: None },
            );
        }
        assert(self@ =~= reverted(old(self)@, key@));
    }

    /// Whether a key's effects stand, for a key that is known.
    pub fn status_of(&self, key: &str) -> (r: Option<IdempotencyStatus>)
        ensures
            r == (if self@.contains_key(key@) {
                Some(self@[key@].status)
            } else {
                None
            }),
    {
        match self.states.get(&key.to_owned()) {
            Some(s) => Some(s.status),
            None => None,
        }
    }
}

/// A section runs once until it is undone: from its first commit on it has a
/// standing value, which further commits do not change; undoing it takes the
/// value away; and neither touches another key.
pub proof fn law_exactly_once(m: Keys, key: Seq<char>, v: ValueView, w: ValueView, other: Seq<char>)
    ensures
        standing_value(committed(m, key, v), key) is Some,
        standing_value(m, key) is None && !crate::action::holds_handle(v) ==> standing_value(
            committed(m, key, v),
            key,
        ) == Some(v),
        standing_value(m, key) is None && crate::action::holds_handle(v) ==> standing_value(
            committed(m, key, v),
            key,
        ) == Some(ValueView::Unit),
        committed(committed(m, key, v), key, w) == committed(m, key, v),
        standing_value(reverted(m, key), key) is None,
        other != key ==> standing_value(committed(m, key, v), other) == standing_value(m, other),
        other != key ==> standing_value(reverted(m, key), other) == standing_value(m, other),
{
}

/// Committing and undoing touch one key only, and undoing a key that is not known
/// makes nothing known. What was undone can be committed anew, with another value.
pub proof fn law_one_key(m: Keys, key: Seq<char>, v: ValueView)
    ensures
        committed(m, key, v).remove(key) == m.remove(key),
        reverted(m, key).remove(key) == m.remove(key),
        committed(m, key, v).contains_key(key),
        committed(m, key, v)[key].status is Committed,
        !(m.contains_key(key) && m[key].status is Committed) ==> committed(m, key, v)[key].value
            == (if crate::action::holds_handle(v) {
            None
        } else {
            Some(v)
        }),
        m.contains_key(key) && m[key].status is Committed ==> committed(m, key, v) == m,
        reverted(m, key).contains_key(key) == m.contains_key(key),
        m.contains_key(key) ==> reverted(m, key)[key].status is Reverted && reverted(
            m,
            key,
        )[key].value is None,
        committed(reverted(m, key), key, v)[key].value == (if crate::action::holds_handle(v) {
            None
        } else {
            Some(v)
        }),
{
    assert(committed(m, key, v).remove(key) =~= m.remove(key));
    assert(reverted(m, key).remove(key) =~= m.remove(key));
}

/// A key has a value without running exactly while it is committed: the one that was
/// kept, or the unit where none was.
pub proof fn law_standing_value(m: Keys, key: Seq<char>)
    ensures
        standing_value(m, key) == (if m.contains_key(key) && m[key].status is Committed {
            Some(
                match m[key].value {
                    Some(v) => v,
                    None => ValueView::Unit,
                },
            )
        } else {
            None
        }),
{
}

/// What is known of a key is its status and the value that was kept.
pub proof fn law_what_is_known(s: IdempotencyState)
    ensures
        s@.status == s.status,
        s.value matches Some(v) ==> s@.value == Some(v@),
        s.value is None ==> s@.value is None,
{
}

} // verus!
