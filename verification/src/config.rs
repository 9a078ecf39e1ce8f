//! Configuration: the hardware section, and which top-level sections of the
//! defaults a configuration file lacks.

use vstd::prelude::*;

use crate::text::same_text;

verus! {

/// The hardware section of the configuration.
pub struct Hardware {
    pub quadro_device: String,
    pub d5_device: String,
}

/// The characters of each key.
pub open spec fn key_chars(keys: Seq<String>) -> Seq<Seq<char>> {
    keys.map_values(|k: String| k@)
}

/// The keys of `defaults`, in order, that do not occur among `present`.
pub open spec fn missing_keys(present: Seq<Seq<char>>, defaults: Seq<Seq<char>>) -> Seq<Seq<char>>
    decreases defaults.len(),
{
    if defaults.len() == 0 {
        Seq::empty()
    } else {
        missing_keys(present, defaults.drop_last()) + if present.contains(defaults.last()) {
            Seq::<Seq<char>>::empty()
        } else {
            seq![defaults.last()]
        }
    }
}

/// Membership in `missing_keys`: a key is missing exactly when it is a
/// default key and not a present one.
proof fn lemma_missing_keys_members(present: Seq<Seq<char>>, defaults: Seq<Seq<char>>)
    ensures
        forall|k: Seq<char>|
            #[trigger] missing_keys(present, defaults).contains(k) <==> (defaults.contains(k)
                && !present.contains(k)),
    decreases defaults.len(),
{
    if defaults.len() > 0 {
        let init = defaults.drop_last();
        lemma_missing_keys_members(present, init);
        assert forall|k: Seq<char>|
            #[trigger] missing_keys(present, defaults).contains(k) <==> (defaults.contains(k)
                && !present.contains(k)) by {
            let rest = missing_keys(present, init);
            let tail = if present.contains(defaults.last()) {
                Seq::<Seq<char>>::empty()
            } else {
                seq![defaults.last()]
            };
            assert(missing_keys(present, defaults) == rest + tail);
            if (rest + tail).contains(k) {
                let j = choose|j: int| 0 <= j < (rest + tail).len() && (rest + tail)[j] == k;
                if j < rest.len() {
                    assert(rest[j] == k);
                    assert(rest.contains(k));
                    let m = choose|m: int| 0 <= m < init.len() && init[m] == k;
                    assert(defaults[m] == k);
                } else {
                    assert(tail[j - rest.len()] == k);
                    assert(defaults[defaults.len() - 1] == k);
                }
            }
            if defaults.contains(k) && !present.contains(k) {
                let m = choose|m: int| 0 <= m < defaults.len() && defaults[m] == k;
                if m < defaults.len() - 1 {
                    assert(init[m] == k);
                    assert(init.contains(k));
                    assert(rest.contains(k));
                    let j = choose|j: int| 0 <= j < rest.len() && rest[j] == k;
                    assert((rest + tail)[j] == k);
                } else {
                    assert((rest + tail)[rest.len() as int] == k);
                }
            }
        }
    }
}

/// Whether `key` is among `keys`.
fn has_key(keys: &Vec<String>, key: &String) -> (b: bool)
    ensures
        b == key_chars(keys@).contains(key@),
{
    let mut i: usize = 0;
    while i < keys.len()
        invariant
            i <= keys@.len(),
            forall|m: int| 0 <= m < i ==> keys@[m]@ != key@,
        decreases keys@.len() - i,
    {
        if same_text(keys[i].as_str(), key.as_str()) {
            assert(key_chars(keys@)[i as int] == key@);
            return true;
        }
        i = i + 1;
    }
    proof {
        if key_chars(keys@).contains(key@) {
            let m = choose|m: int| 0 <= m < key_chars(keys@).len() && key_chars(keys@)[m] == key@;
            assert(keys@[m]@ == key@);
        }
    }
    false
}

/// The top-level keys of the defaults, in order, that a configuration file
/// with top-level keys `present` lacks: copying these from the defaults
/// makes every default section present while keeping every section the
/// file has.
pub fn keys_to_fill(present: &Vec<String>, defaults: &Vec<String>) -> (fill: Vec<String>)
    ensures
        key_chars(fill@) == missing_keys(key_chars(present@), key_chars(defaults@)),
        forall|k: Seq<char>|
            key_chars(defaults@).contains(k) ==> key_chars(present@).contains(k) || #[trigger] key_chars(
                fill@,
            ).contains(k),
        forall|k: Seq<char>|
            #[trigger] key_chars(fill@).contains(k) ==> key_chars(defaults@).contains(k)
                && !key_chars(present@).contains(k),
{
    let mut fill: Vec<String> = Vec::new();
    let ghost p = key_chars(present@);
    let mut i: usize = 0;
    while i < defaults.len()
        invariant
            i <= defaults@.len(),
            p == key_chars(present@),
            key_chars(fill@) == missing_keys(p, key_chars(defaults@.take(i as int))),
        decreases defaults@.len() - i,
    {
        let key = &defaults[i];
        let ghost before = key_chars(fill@);
        assert(key_chars(defaults@.take(i + 1)).drop_last() =~= key_chars(defaults@.take(i as int)));
        assert(key_chars(defaults@.take(i + 1)).last() == key@);
        if !has_key(present, key) {
            fill.push(key.clone());
            assert(key_chars(fill@) =~= before + seq![key@]);
        } else {
            assert(key_chars(fill@) =~= before + Seq::<Seq<char>>::empty());
        }
        i = i + 1;
    }
    assert(defaults@.take(i as int) =~= defaults@);
    proof {
        lemma_missing_keys_members(p, key_chars(defaults@));
    }
    fill
}

} // verus!
