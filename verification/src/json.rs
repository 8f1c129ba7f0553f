//! Payloads: the JSON values that actions reply with.

use vstd::prelude::*;
use vstd::string::*;

use crate::decimal::{
    digits, law_numbers_read_back, signed, signed_digits, write_signed, write_unsigned,
};
use crate::text::same;

verus! {

/// A JSON number.
#[derive(Debug, PartialEq)]
pub enum Number {
    /// A whole number from zero up.
    PosInt(u64),
    /// A whole number below zero.
    NegInt(i64),
    /// Any other number, as it is written.
    Float(String),
}

/// A JSON value.
///
/// The members of an object have distinct names. Where they do not, the first
/// of a name is the one that counts.
#[derive(Debug, PartialEq)]
pub enum Json {
    /// `null`.
    Null,
    /// `true` or `false`.
    Bool(bool),
    /// A number.
    Number(Number),
    /// A text.
    Str(String),
    /// A list of values.
    Array(Vec<Json>),
    /// Named values.
    Object(Vec<(String, Json)>),
}

/// The first value of that name among the members of an object.
pub open spec fn lookup(members: Seq<(String, Json)>, name: Seq<char>) -> Option<Json>
    decreases members.len(),
{
    if members.len() == 0 {
        None
    } else if members[0].0@ == name {
        Some(members[0].1)
    } else {
        lookup(members.drop_first(), name)
    }
}

/// The values that a list of references refers to.
pub open spec fn referents(values: Seq<&Json>) -> Seq<Json> {
    values.map_values(|value: &Json| *value)
}

/// The value that an optional reference refers to.
pub open spec fn referent(value: Option<&Json>) -> Option<Json> {
    match value {
        Some(value) => Some(*value),
        None => None,
    }
}

impl Number {
    /// The number in writing.
    pub open spec fn text(self) -> Seq<char> {
        match self {
            Number::PosInt(n) => digits(n as nat),
            Number::NegInt(n) => signed_digits(n as int),
            Number::Float(text) => text@,
        }
    }

    /// The number in writing.
    pub fn to_text(&self) -> (text: String)
        ensures
            text@ == self.text(),
    {
        match self {
            Number::PosInt(n) => write_unsigned(*n),
            Number::NegInt(n) => write_signed(*n),
            Number::Float(text) => text.clone(),
        }
    }
}

impl Json {
    /// The member of that name.
    pub open spec fn member(self, name: Seq<char>) -> Option<Json> {
        match self {
            Json::Object(members) => lookup(members@, name),
            _ => None,
        }
    }

    /// The text that the value is.
    pub open spec fn string(self) -> Option<Seq<char>> {
        match self {
            Json::Str(text) => Some(text@),
            _ => None,
        }
    }

    /// The whole number from zero up that the value is.
    pub open spec fn natural(self) -> Option<u64> {
        match self {
            Json::Number(Number::PosInt(n)) => Some(n),
            _ => None,
        }
    }

    /// The member of that name.
    pub fn get(&self, name: &str) -> (value: Option<&Json>)
        ensures
            referent(value) == self.member(name@),
    {
        match self {
            Json::Object(members) => {
                let mut i: usize = 0;
                assert(members@.skip(0) =~= members@);
                while i < members.len()
                    invariant
                        i <= members@.len(),
                        self.member(name@) == lookup(members@, name@),
                        lookup(members@, name@) == lookup(members@.skip(i as int), name@),
                    decreases members@.len() - i,
                {
                    assert(members@.skip(i as int).drop_first() =~= members@.skip(i + 1));
                    assert(members@.skip(i as int)[0] == members@[i as int]);
                    if same(members[i].0.as_str(), name) {
                        return Some(&members[i].1);
                    }
                    i = i + 1;
                }
                None
            },
            _ => None,
        }
    }

    /// The text that the value is.
    pub fn as_str(&self) -> (text: Option<&str>)
        ensures
            match text {
                Some(text) => self.string() == Some(text@),
                None => self.string() is None,
            },
    {
        match self {
            Json::Str(text) => Some(text.as_str()),
            _ => None,
        }
    }

    /// The whole number from zero up that the value is.
    pub fn as_u64(&self) -> (n: Option<u64>)
        ensures
            n == self.natural(),
    {
        match self {
            Json::Number(Number::PosInt(n)) => Some(*n),
            _ => None,
        }
    }
}

/// The first member of a name is the one that counts; where no member has the
/// name there is none, and nothing but an object has members.
pub proof fn law_members_go_by_name(
    before: Seq<(String, Json)>,
    member: (String, Json),
    after: Seq<(String, Json)>,
    name: Seq<char>,
)
    requires
        forall|i: int| 0 <= i < before.len() ==> (#[trigger] before[i]).0@ != name,
    ensures
        member.0@ == name ==> lookup(before.push(member) + after, name) == Some(member.1),
        lookup(before, name) is None,
    decreases before.len(),
{
    let all = before.push(member) + after;
    if before.len() > 0 {
        let rest = before.drop_first();
        assert forall|i: int| 0 <= i < rest.len() implies (#[trigger] rest[i]).0@ != name by {
            assert(rest[i] == before[i + 1]);
        }
        law_members_go_by_name(rest, member, after, name);
        assert(all.drop_first() =~= rest.push(member) + after);
        assert(all[0] == before[0]);
    } else {
        assert(all[0] == member);
    }
}

/// What a value is: only an object has members, only a text is a text, and only a
/// whole number from zero up is a count.
pub proof fn law_values_are_what_they_are(value: Json, name: Seq<char>)
    ensures
        value.member(name) == (match value {
            Json::Object(members) => lookup(members@, name),
            _ => None,
        }),
        value.string() is Some <==> value is Str,
        value matches Json::Str(text) ==> value.string() == Some(text@),
        value.natural() is Some <==> (value matches Json::Number(number) && number is PosInt),
        value matches Json::Number(Number::PosInt(n)) ==> value.natural() == Some(n),
{
}

/// A whole number is written in digits that read back as the number, and any
/// other number as it came.
pub proof fn law_numbers_are_written_out(number: Number)
    ensures
        number matches Number::PosInt(n) ==> signed(number.text()) == Some(n as int),
        number matches Number::NegInt(n) ==> signed(number.text()) == Some(n as int),
        number matches Number::Float(text) ==> number.text() == text@,
{
    match number {
        Number::PosInt(n) => law_numbers_read_back(n as nat, n as int),
        Number::NegInt(n) => law_numbers_read_back(0, n as int),
        Number::Float(_) => {},
    }
}

} // verus!
