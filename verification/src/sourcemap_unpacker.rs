//! The sources that a mapping document carries.

use crate::mapping::{mapping_of, source_entries};
use vstd::hash_map::StringHashMap;
use vstd::prelude::*;

verus! {

/// The source texts by path: each source that the document carries a text
/// for, under its path. Where a path occurs more than once, the last
/// source with a text stands.
pub open spec fn unpacked(sources: Seq<(Seq<char>, Option<Seq<char>>)>) -> Map<
    Seq<char>,
    Seq<char>,
>
    decreases sources.len(),
{
    if sources.len() == 0 {
        Map::empty()
    } else {
        match sources.last().1 {
            Some(text) => unpacked(sources.drop_last()).insert(sources.last().0, text),
            None => unpacked(sources.drop_last()),
        }
    }
}

/// The texts that a map of strings holds.
pub open spec fn text_values(m: Map<Seq<char>, String>) -> Map<Seq<char>, Seq<char>> {
    m.map_values(|s: String| s@)
}

/// The text of every source that the mapping carries one for, by path.
pub fn unpack_sources(sm: &sourcemap::SourceMap) -> (r: StringHashMap<String>)
    ensures
        text_values(r@) == unpacked(mapping_of(*sm).sources),
{
    let entries = source_entries(sm);
    let ghost sources = mapping_of(*sm).sources;
    let mut map: StringHashMap<String> = StringHashMap::new();
    let mut k: usize = 0;
    proof {
        assert(sources.take(0) =~= Seq::empty());
        assert(text_values(map@) =~= unpacked(sources.take(0)));
    }
    while k < entries.len()
        invariant
            k <= entries.len(),
            entries@.len() == sources.len(),
            forall|j: int|
                0 <= j < entries@.len() ==> (#[trigger] entries@[j]).0@ == sources[j].0 && (
                match entries@[j].1 {
                    Some(text) => sources[j].1 == Some(text@),
                    None => sources[j].1 is None,
                }),
            text_values(map@) == unpacked(sources.take(k as int)),
        decreases entries.len() - k,
    {
        proof {
            assert(sources.take(k + 1).drop_last() == sources.take(k as int));
            assert(sources.take(k + 1).last() == sources[k as int]);
        }
        let entry = &entries[k];
        match &entry.1 {
            Some(text) => {
                let path = entry.0.clone();
                let text = text.clone();
                proof {
                    assert(text_values(map@.insert(path@, text)) =~= text_values(map@).insert(
                        path@,
                        text@,
                    ));
                }
                map.insert(path, text);
            },
            None => {},
        }
        k = k + 1;
    }
    proof {
        assert(sources.take(k as int) == sources);
    }
    map
}

} // verus!
