//! Maps by device as JSON objects, the devices named in hexadecimal.
use vstd::prelude::*;
use crate::collections::{collected, entries_make_the_map, ordered, ordered_entries, VecMap};
use crate::encoding::{hex_key, hex_key_round_trip, hex_text};
use crate::ids::DevicePubkey;
use crate::json::{field_values, lemma_field_values, push_field, Json, JsonValue};

verus! {

/// A value that can be written as JSON and read back.
pub trait JsonEntry: Sized {
    type Model;

    spec fn model(self) -> Self::Model;

    /// What the value is as JSON.
    spec fn as_json(model: Self::Model) -> JsonValue;

    /// The value that a JSON value is.
    spec fn of_json(value: JsonValue) -> Option<Self::Model>;

    proof fn read_back(model: Self::Model)
        ensures
            Self::of_json(Self::as_json(model)) == Some(model),
    ;

    fn to_json(&self) -> (r: Json)
        ensures
            r@ == Self::as_json(self.model()),
    ;

    fn from_json(json: Json) -> (r: Option<Self>)
        ensures
            r is Some == Self::of_json(json@) is Some,
            r matches Some(v) ==> Self::of_json(json@) == Some(v.model()),
    ;
}

/// What the values of a map say.
pub open spec fn models<V: JsonEntry>(map: Map<DevicePubkey, V>) -> Map<DevicePubkey, V::Model> {
    Map::new(|k: DevicePubkey| map.contains_key(k), |k: DevicePubkey| map[k].model())
}

/// Devices with their values as the members of an object.
pub open spec fn entry_fields<V: JsonEntry>(entries: Seq<(DevicePubkey, V::Model)>) -> Seq<
    (Seq<char>, JsonValue),
> {
    Seq::new(entries.len(), |i: int| (hex_text(entries[i].0.0@), V::as_json(entries[i].1)))
}

/// The members of a map by device, in the order of the devices' keys.
pub open spec fn keyed_fields<V: JsonEntry>(map: Map<DevicePubkey, V::Model>) -> Seq<
    (Seq<char>, JsonValue),
> {
    entry_fields::<V>(ordered_entries::<DevicePubkey, V::Model>(map))
}

/// The map by device that the members of an object make, if each has the name
/// of a device and a value. Of a device that is named twice, the last counts.
pub open spec fn keyed_of_fields<V: JsonEntry>(fields: Seq<(Seq<char>, JsonValue)>) -> Option<
    Map<DevicePubkey, V::Model>,
>
    decreases fields.len(),
{
    if fields.len() == 0 {
        Some(Map::empty())
    } else {
        match (
            keyed_of_fields::<V>(fields.drop_last()),
            hex_key(fields.last().0),
            V::of_json(fields.last().1),
        ) {
            (Some(map), Some(key), Some(value)) => Some(map.insert(DevicePubkey(key), value)),
            _ => None,
        }
    }
}

/// The map by device that a JSON value is.
pub open spec fn keyed_of_json<V: JsonEntry>(value: JsonValue) -> Option<
    Map<DevicePubkey, V::Model>,
> {
    match value {
        JsonValue::Object(fields) => keyed_of_fields::<V>(fields),
        _ => None,
    }
}

proof fn lemma_entries_read_back<V: JsonEntry>(entries: Seq<(DevicePubkey, V::Model)>)
    ensures
        keyed_of_fields::<V>(entry_fields::<V>(entries)) == Some(collected(entries)),
    decreases entries.len(),
{
    if entries.len() > 0 {
        let fewer = entries.drop_last();
        let (key, value) = entries.last();
        lemma_entries_read_back::<V>(fewer);
        assert(entry_fields::<V>(entries).drop_last() =~= entry_fields::<V>(fewer));
        assert(entry_fields::<V>(entries).last() == (hex_text(key.0@), V::as_json(value)));
        hex_key_round_trip(key.0);
        V::read_back(value);
    }
}

/// A map by device that was written as JSON is read back.
pub proof fn keyed_round_trip<V: JsonEntry>(map: Map<DevicePubkey, V::Model>)
    requires
        map.dom().finite(),
    ensures
        keyed_of_json::<V>(JsonValue::Object(keyed_fields::<V>(map))) == Some(map),
{
    lemma_entries_read_back::<V>(ordered_entries::<DevicePubkey, V::Model>(map));
    entries_make_the_map::<DevicePubkey, V::Model>(map);
}

/// Where some of the members make no map, all together make none.
proof fn lemma_no_map<V: JsonEntry>(fields: Seq<(Seq<char>, JsonValue)>, n: int)
    requires
        0 <= n <= fields.len(),
        keyed_of_fields::<V>(fields.take(n)) is None,
    ensures
        keyed_of_fields::<V>(fields) is None,
    decreases fields.len() - n,
{
    if n < fields.len() {
        assert(fields.take(n + 1).drop_last() =~= fields.take(n));
        lemma_no_map::<V>(fields, n + 1);
    } else {
        assert(fields.take(n) =~= fields);
    }
}

/// Writes a map by device as JSON.
pub fn keyed_to_json<V: JsonEntry>(map: &VecMap<DevicePubkey, V>) -> (r: Json)
    ensures
        r@ == JsonValue::Object(keyed_fields::<V>(models(map@))),
        map@.dom().finite(),
        models(map@).dom().finite(),
{
    let ghost target = keyed_fields::<V>(models(map@));
    assert(models(map@).dom() =~= map@.dom());
    let mut fields: Vec<(String, Json)> = Vec::new();
    let n: usize = map.len();
    proof {
        crate::collections::lists_len::<DevicePubkey>(map.order(), map@.dom());
    }
    let mut i: usize = 0;
    assert(field_values(fields@) =~= target.take(0));
    while i < n
        invariant
            i <= n,
            n == map.order().len(),
            map.order() == ordered::<DevicePubkey>(map@.dom()),
            models(map@).dom() == map@.dom(),
            target == keyed_fields::<V>(models(map@)),
            field_values(fields@) == target.take(i as int),
        decreases n - i,
    {
        let key = *map.key_at(i);
        push_field(&mut fields, key.to_hex().as_str(), map.value_at(i).to_json());
        assert(map@.dom().contains(map.order()[i as int]));
        assert(field_values(fields@) =~= target.take(i + 1));
        i = i + 1;
    }
    assert(target.take(i as int) =~= target);
    Json::Object(fields)
}

/// Reads a map by device.
pub fn keyed_from_json<V: JsonEntry>(json: Json) -> (r: Option<VecMap<DevicePubkey, V>>)
    ensures
        r is Some == keyed_of_json::<V>(json@) is Some,
        r matches Some(map) ==> keyed_of_json::<V>(json@) == Some(models(map@)),
{
    let mut rest = match json {
        Json::Object(fields) => fields,
        _ => {
            return None;
        },
    };
    let ghost all = rest@;
    let ghost said = field_values(rest@);
    proof {
        lemma_field_values(rest@);
    }
    let mut r: VecMap<DevicePubkey, V> = VecMap::new();
    let ghost mut i: int = 0;
    assert(said.take(0) =~= Seq::empty());
    assert(models(r@) =~= Map::empty());
    while rest.len() > 0
        invariant
            0 <= i <= all.len(),
            said == field_values(all),
            said.len() == all.len(),
            json@ == JsonValue::Object(said),
            forall|j: int| 0 <= j < all.len() ==> #[trigger] said[j] == (all[j].0@, all[j].1@),
            rest@ == all.skip(i),
            keyed_of_fields::<V>(said.take(i)) == Some(models(r@)),
        decreases rest@.len(),
    {
        let ghost before = r@;
        let (name, value) = rest.remove(0);
        proof {
            assert((name, value) == all[i]);
            assert(rest@ =~= all.skip(i + 1));
            assert(said.take(i + 1).drop_last() =~= said.take(i));
            assert(said.take(i + 1).last() == said[i]);
        }
        let key = match DevicePubkey::parse_hex(name.as_str()) {
            Ok(key) => key,
            Err(_) => {
                proof {
                    lemma_no_map::<V>(said, i + 1);
                }
                return None;
            },
        };
        let value = match V::from_json(value) {
            Some(value) => value,
            None => {
                proof {
                    lemma_no_map::<V>(said, i + 1);
                }
                return None;
            },
        };
        let ghost model = value.model();
        r.insert(key, value);
        proof {
            assert(models(r@) =~= models(before).insert(key, model));
            i = i + 1;
        }
    }
    assert(said.take(i) =~= said);
    Some(r)
}

} // verus!
