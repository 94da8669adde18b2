//! The keys under which an event is found by its tags.

use vstd::prelude::*;
use vstd::string::StringSliceAdditionalSpecFns;
use vstd::utf8::encode_utf8;

verus! {

/// The longest key that the index takes, in bytes. Longer keys are cut.
pub const MAX_KEY_BYTES: usize = 511;

/// A tag of an event: its name, and its value if it has one.
#[derive(Debug)]
pub struct Tag {
    pub name: String,
    pub value: Option<String>,
}

/// Whether events are found by tags of the name `name`.
pub open spec fn is_indexed_name(name: Seq<char>) -> bool {
    name == "a"@ || name == "d"@ || name == "p"@ || name == "delegation"@
}

/// Whether the tag is indexed: it has a value and a name by which events
/// are found; and a tag that names a person is indexed only if the
/// person is our user, whose key in hexadecimal digits is `our_key`.
pub open spec fn is_indexed(tag: Tag, our_key: Option<String>) -> bool {
    match tag.value {
        None => false,
        Some(value) => is_indexed_name(tag.name@) && (tag.name@ == "p"@ ==> match our_key {
            Some(key) => value@ == key@,
            None => false,
        }),
    }
}

/// The bytes, or the first `MAX_KEY_BYTES` of them.
pub open spec fn cut(bytes: Seq<u8>) -> Seq<u8> {
    if bytes.len() > MAX_KEY_BYTES {
        bytes.take(MAX_KEY_BYTES as int)
    } else {
        bytes
    }
}

/// The key of a tag with a value: its name, a double quote, which no
/// name is likely to hold, and its value.
pub open spec fn tag_key(tag: Tag) -> Seq<u8> {
    cut(encode_utf8(tag.name@) + seq![34u8] + encode_utf8(tag.value.unwrap()@))
}

/// The keys of the indexed tags, in the order of the tags.
pub open spec fn tag_keys(tags: Seq<Tag>, our_key: Option<String>) -> Seq<Seq<u8>>
    decreases tags.len(),
{
    if tags.len() == 0 {
        Seq::empty()
    } else {
        let rest = tag_keys(tags.drop_last(), our_key);
        if is_indexed(tags.last(), our_key) {
            rest.push(tag_key(tags.last()))
        } else {
            rest
        }
    }
}

/// The views of the keys, in their order.
pub open spec fn key_views(keys: Seq<Vec<u8>>) -> Seq<Seq<u8>> {
    keys.map_values(|k: Vec<u8>| k@)
}

/// Whether events are found by tags of the name `name`.
pub fn indexed_name(name: &String) -> (r: bool)
    ensures
        r == is_indexed_name(name@),
{
    *name == "a".to_owned() || *name == "d".to_owned() || *name == "p".to_owned() || *name
        == "delegation".to_owned()
}

/// The keys under which an event with the tags `tags` is entered in the
/// index of tags. `our_key` is the key of our user in hexadecimal digits.
pub fn event_tag_index_keys(tags: &Vec<Tag>, our_key: &Option<String>) -> (r: Vec<Vec<u8>>)
    ensures
        key_views(r@) == tag_keys(tags@, *our_key),
{
    let mut out: Vec<Vec<u8>> = Vec::new();
    let mut i: usize = 0;
    assert(tags@.take(0) =~= Seq::empty());
    assert(key_views(out@) =~= tag_keys(tags@.take(0), *our_key));
    while i < tags.len()
        invariant
            i <= tags.len(),
            key_views(out@) == tag_keys(tags@.take(i as int), *our_key),
        decreases tags.len() - i,
    {
        assert(tags@.take(i + 1).drop_last() =~= tags@.take(i as int));
        let tag = &tags[i];
        let ghost so_far = key_views(out@);
        match &tag.value {
            None => {},
            Some(value) => {
                let mut wanted = indexed_name(&tag.name);
                if wanted && tag.name == "p".to_owned() {
                    wanted = match our_key {
                        Some(key) => *value == *key,
                        None => false,
                    };
                }
                if wanted {
                    let mut key: Vec<u8> = Vec::new();
                    key.extend_from_slice(tag.name.as_str().as_bytes());
                    key.push(34u8);
                    key.extend_from_slice(value.as_str().as_bytes());
                    assert(key@ =~= encode_utf8(tag.name@) + seq![34u8] + encode_utf8(value@));
                    if key.len() > MAX_KEY_BYTES {
                        key.truncate(MAX_KEY_BYTES);
                    }
                    out.push(key);
                    assert(key_views(out@) =~= so_far.push(tag_key(*tag)));
                }
            },
        }
        i += 1;
    }
    assert(tags@.take(i as int) =~= tags@);
    out
}

} // verus!
