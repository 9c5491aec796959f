//! Identifiers: random 128-bit UUIDs for gorillas, fighters, tasks, triggers,
//! tenants and messages.
use vstd::prelude::*;

verus! {

/// A fresh random version-4 UUID as a 128-bit number (`uuid::Uuid::new_v4`).
/// Stated: it is not the nil UUID, as a version-4 UUID carries version bits.
#[verifier::external_body]
pub(crate) fn new_uuid() -> (r: u128)
    ensures
        r != 0,
{
    uuid::Uuid::new_v4().as_u128()
}

/// The lower-case hexadecimal digit for `n` (below 16).
pub open spec fn hex_char(n: nat) -> char {
    if n < 10 {
        (n + 48) as char
    } else {
        (n + 87) as char
    }
}

/// The last `n` hexadecimal digits of `v`, most significant first.
pub open spec fn hex_digits(v: nat, n: nat) -> Seq<char>
    decreases n,
{
    if n == 0 {
        Seq::empty()
    } else {
        hex_digits(v / 16, (n - 1) as nat).push(hex_char(v % 16))
    }
}

/// The text of the UUID `id` in its hyphenated lower-case form: its 32
/// hexadecimal digits in groups of 8, 4, 4, 4 and 12, joined by hyphens.
pub open spec fn uuid_text(id: u128) -> Seq<char> {
    let d = hex_digits(id as nat, 32);
    d.subrange(0, 8) + seq!['-'] + d.subrange(8, 12) + seq!['-'] + d.subrange(12, 16) + seq!['-'] + d.subrange(16, 20)
        + seq!['-'] + d.subrange(20, 32)
}

/// `uuid::Uuid::from_u128(id).to_string()`: the UUID `id` as text, in the
/// hyphenated lower-case form `Uuid`'s `Display` writes.
#[verifier::external_body]
pub(crate) fn uuid_string(id: u128) -> (s: String)
    ensures
        s@ == uuid_text(id),
{
    uuid::Uuid::from_u128(id).to_string()
}

/// Unique identifier of a gorilla (an autonomous agent).
#[derive(Debug, Clone, Copy, PartialEq, Eq, Hash, Structural)]
pub struct GorillaId(pub u128);

/// Unique identifier of a fighter (a conversational agent).
#[derive(Debug, Clone, Copy, PartialEq, Eq, Hash, Structural)]
pub struct FighterId(pub u128);

/// Unique identifier of a gorilla task.
#[derive(Debug, Clone, Copy, PartialEq, Eq, Hash, Structural)]
pub struct TaskId(pub u128);

impl TaskId {
    /// The id as UUID text (`Display`).
    pub fn to_string(&self) -> (s: String)
        ensures
            s@ == uuid_text(self.0),
    {
        uuid_string(self.0)
    }

    /// A new random task id.
    pub fn new() -> (id: TaskId)
        ensures
            id.0 != 0,
    {
        TaskId(new_uuid())
    }
}

impl Default for TaskId {
    /// A new random task id.
    fn default() -> (id: TaskId)
        ensures
            id.0 != 0,
    {
        TaskId::new()
    }
}

impl GorillaId {
    /// The id as UUID text (`Display`).
    pub fn to_string(&self) -> (s: String)
        ensures
            s@ == uuid_text(self.0),
    {
        uuid_string(self.0)
    }

    /// A new random gorilla id.
    pub fn new() -> (id: GorillaId)
        ensures
            id.0 != 0,
    {
        GorillaId(new_uuid())
    }
}

impl FighterId {
    /// The id as UUID text (`Display`).
    pub fn to_string(&self) -> (s: String)
        ensures
            s@ == uuid_text(self.0),
    {
        uuid_string(self.0)
    }

    /// A new random fighter id.
    pub fn new() -> (id: FighterId)
        ensures
            id.0 != 0,
    {
        FighterId(new_uuid())
    }
}

} // verus!
