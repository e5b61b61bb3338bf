use vstd::prelude::*;
use crate::text::str_eq;

verus! {

/// The names of a record's fields, in order.
pub open spec fn field_names<V>(fields: Seq<(String, V)>) -> Seq<Seq<char>> {
    fields.map_values(|f: (String, V)| f.0@)
}

/// The position of the first field called `name`.
pub open spec fn field_pos(names: Seq<Seq<char>>, name: Seq<char>) -> Option<int>
    decreases names.len(),
{
    if names.len() == 0 {
        None
    } else {
        match field_pos(names.drop_last(), name) {
            Some(i) => Some(i),
            None => if names.last() == name { Some(names.len() - 1) } else { None },
        }
    }
}

proof fn lemma_field_pos_prefix(names: Seq<Seq<char>>, n: int, name: Seq<char>)
    requires
        0 <= n <= names.len(),
        field_pos(names.take(n), name) is Some,
    ensures
        field_pos(names, name) == field_pos(names.take(n), name),
    decreases names.len(),
{
    if n < names.len() {
        assert(names.drop_last().take(n) =~= names.take(n));
        lemma_field_pos_prefix(names.drop_last(), n, name);
    } else {
        assert(names.take(n) =~= names);
    }
}

/// The position of the first field called `name`, where there is one.
pub fn field_index<V>(fields: &Vec<(String, V)>, name: &str) -> (r: Option<usize>)
    ensures
        match r {
            Some(i) => field_pos(field_names(fields@), name@) == Some(i as int),
            None => field_pos(field_names(fields@), name@) is None,
        },
        r matches Some(i) ==> i < fields@.len(),
{
    let ghost names = field_names(fields@);
    let mut i: usize = 0;
    while i < fields.len()
        invariant
            i <= fields@.len(),
            names == field_names(fields@),
            field_pos(names.take(i as int), name@) is None,
        decreases fields@.len() - i,
    {
        proof {
            assert(names.take(i + 1).drop_last() =~= names.take(i as int));
            assert(names.take(i + 1).last() == fields@[i as int].0@);
        }
        if str_eq(fields[i].0.as_str(), name) {
            proof {
                lemma_field_pos_prefix(names, i + 1, name@);
            }
            return Some(i);
        }
        i = i + 1;
    }
    proof {
        assert(names.take(i as int) =~= names);
    }
    None
}

/// The value of the field called `name` (the first, where several are).
pub fn field_get<'a, V>(fields: &'a Vec<(String, V)>, name: &str) -> (r: Option<&'a V>)
    ensures
        match field_pos(field_names(fields@), name@) {
            Some(i) => r == Some(&fields@[i].1),
            None => r is None,
        },
{
    match field_index(fields, name) {
        Some(i) => Some(&fields[i].1),
        None => None,
    }
}

/// Overwrites the field called `name` in place, keeping its position and
/// name; reports `false`, and changes nothing, where there is none.
pub fn set_field<V>(fields: &mut Vec<(String, V)>, name: &str, value: V) -> (found: bool)
    ensures
        found == field_pos(field_names(old(fields)@), name@) is Some,
        match field_pos(field_names(old(fields)@), name@) {
            Some(i) => final(fields)@ == old(fields)@.update(i, (old(fields)@[i].0, value)),
            None => final(fields)@ == old(fields)@,
        },
{
    match field_index(fields, name) {
        Some(i) => {
            let key = fields[i].0.clone();
            fields[i] = (key, value);
            true
        },
        None => false,
    }
}

} // verus!
