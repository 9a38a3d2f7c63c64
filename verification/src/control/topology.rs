use vstd::prelude::*;
use super::ledcontroller::ControllerLocation;
use super::mapping::{ChannelMapping, LEDAddress, TopologyErrorKind};

verus! {

/// A strip as the topology announces it.
#[derive(Debug, Clone, PartialEq, Eq)]
pub struct StripConfig {
    pub id: LEDAddress,
    pub name: String,
}

/// A controller as the topology announces it.
#[derive(Debug, Clone, PartialEq, Eq)]
pub struct ControllerConfig {
    pub id: LEDAddress,
    pub location: ControllerLocation,
    pub strips: Vec<StripConfig>,
}

/// A channel as the topology announces it. Its identifier in the array is its
/// position in the topology's channel list.
#[derive(Debug, Clone, PartialEq, Eq)]
pub struct ChannelConfig {
    pub length: usize,
    pub precision: usize,
    pub mappings: Vec<ChannelMapping>,
}

/// What an array is built from: the controllers with their strips, and the
/// channels with their mappings.
#[derive(Debug, Clone, PartialEq, Eq)]
pub struct Topology {
    pub controllers: Vec<ControllerConfig>,
    pub channels: Vec<ChannelConfig>,
}

/// An invalid mapping found while an array was built.
#[derive(Debug, Copy, Clone, PartialEq, Eq, Structural)]
pub struct TopologyError {
    /// Position of the offending channel in the topology's channel list.
    pub channel: usize,
    /// Position of the offending mapping in that channel's mapping list.
    pub mapping: usize,
    pub kind: TopologyErrorKind,
}

/// The name that the strip list `strips` gives to strip `id`: that of the
/// first entry with this identifier, and the empty name where there is none.
pub open spec fn strip_name(strips: Seq<StripConfig>, id: LEDAddress) -> Seq<char>
    decreases strips.len(),
{
    if strips.len() == 0 {
        Seq::empty()
    } else if strips[0].id == id {
        strips[0].name@
    } else {
        strip_name(strips.drop_first(), id)
    }
}

/// The mappings of `layout` that name controller `controller_id`, in order,
/// each with the identifier `channel` of the channel it belongs to.
pub open spec fn channel_sources(
    controller_id: LEDAddress,
    channel: int,
    layout: Seq<ChannelMapping>,
) -> Seq<(int, ChannelMapping)>
    decreases layout.len(),
{
    if layout.len() == 0 {
        Seq::empty()
    } else {
        let before = channel_sources(controller_id, channel, layout.drop_last());
        if layout.last().controller_id == controller_id {
            before.push((channel, layout.last()))
        } else {
            before
        }
    }
}

/// The mappings of all channels that name controller `controller_id`: channel
/// by channel, and within a channel in the order of its mapping list.
pub open spec fn sources(controller_id: LEDAddress, layouts: Seq<Seq<ChannelMapping>>) -> Seq<
    (int, ChannelMapping),
>
    decreases layouts.len(),
{
    if layouts.len() == 0 {
        Seq::empty()
    } else {
        sources(controller_id, layouts.drop_last()) + channel_sources(
            controller_id,
            layouts.len() - 1,
            layouts.last(),
        )
    }
}

/// Some item of `items` has the key `id`.
pub open spec fn keyed<T>(items: Seq<T>, key: spec_fn(T) -> LEDAddress, id: LEDAddress) -> bool {
    exists|i: int| 0 <= i < items.len() && key(#[trigger] items[i]) == id
}

/// No two items of `items` have the same key.
pub open spec fn distinct<T>(items: Seq<T>, key: spec_fn(T) -> LEDAddress) -> bool {
    forall|i: int, j: int|
        #![trigger items[i], items[j]]
        0 <= i < j < items.len() ==> key(items[i]) != key(items[j])
}

/// The items of `items` whose key no earlier item has, in order: of the
/// items that share a key, the first stands for all.
pub open spec fn firsts<T>(items: Seq<T>, key: spec_fn(T) -> LEDAddress) -> Seq<T>
    decreases items.len(),
{
    if items.len() == 0 {
        Seq::empty()
    } else if keyed(items.drop_last(), key, key(items.last())) {
        firsts(items.drop_last(), key)
    } else {
        firsts(items.drop_last(), key).push(items.last())
    }
}

/// The key of a controller of the topology: its identifier.
pub open spec fn controller_key() -> spec_fn(ControllerConfig) -> LEDAddress {
    |config: ControllerConfig| config.id
}

/// The key of a mapping among those that name one controller: the
/// identifier of the strip that it names.
pub open spec fn source_key() -> spec_fn((int, ChannelMapping)) -> LEDAddress {
    |source: (int, ChannelMapping)| source.1.strip_id
}

/// The first items of each key have the keys of all items, each once.
pub proof fn lemma_firsts<T>(items: Seq<T>, key: spec_fn(T) -> LEDAddress)
    ensures
        distinct(firsts(items, key), key),
        forall|id: LEDAddress| keyed(firsts(items, key), key, id) == keyed(items, key, id),
    decreases items.len(),
{
    if items.len() > 0 {
        let before = items.drop_last();
        let last = items.last();
        lemma_firsts(before, key);
        let kept = firsts(before, key);
        assert forall|id: LEDAddress| keyed(firsts(items, key), key, id) == keyed(
            items,
            key,
            id,
        ) by {
            if keyed(items, key, id) {
                let i = choose|i: int| 0 <= i < items.len() && key(#[trigger] items[i]) == id;
                if i < before.len() {
                    assert(before[i] == items[i]);
                    assert(keyed(before, key, id));
                    assert(keyed(kept, key, id));
                    let j = choose|j: int| 0 <= j < kept.len() && key(#[trigger] kept[j]) == id;
                    assert(firsts(items, key)[j] == kept[j]);
                } else {
                    assert(id == key(last));
                    if keyed(before, key, key(last)) {
                        assert(keyed(kept, key, id));
                    } else {
                        assert(firsts(items, key)[kept.len() as int] == last);
                    }
                }
            }
            if keyed(firsts(items, key), key, id) {
                let j = choose|j: int|
                    0 <= j < firsts(items, key).len() && key(#[trigger] firsts(items, key)[j]) == id;
                if j < kept.len() {
                    assert(kept[j] == firsts(items, key)[j]);
                    assert(keyed(kept, key, id));
                    assert(keyed(before, key, id));
                    let i = choose|i: int| 0 <= i < before.len() && key(#[trigger] before[i]) == id;
                    assert(items[i] == before[i]);
                } else {
                    assert(firsts(items, key)[j] == last);
                    assert(items[items.len() - 1] == last);
                }
            }
        }
        if !keyed(before, key, key(last)) {
            let all = firsts(items, key);
            assert forall|i: int, j: int|
                #![trigger all[i], all[j]]
                0 <= i < j < all.len() implies key(all[i]) != key(all[j]) by {
                if j < kept.len() {
                    assert(all[i] == kept[i] && all[j] == kept[j]);
                } else {
                    assert(all[i] == kept[i]);
                    if key(kept[i]) == key(last) {
                        assert(keyed(kept, key, key(last)));
                    }
                }
            }
        }
    }
}

impl Topology {
    /// The controllers that the topology announces, each identifier once:
    /// where announcements share an identifier, the first stands.
    pub open spec fn announced(&self) -> Seq<ControllerConfig> {
        firsts(self.controllers@, controller_key())
    }

    /// The mapping lists of the channels, by channel identifier.
    pub open spec fn layouts(&self) -> Seq<Seq<ChannelMapping>> {
        Seq::new(self.channels@.len(), |c: int| self.channels@[c].mappings@)
    }

    /// Every channel's mapping list is valid for that channel's length.
    pub open spec fn valid(&self) -> bool {
        forall|c: int|
            0 <= c < self.channels@.len() ==> crate::control::mapping::mappings_valid(
                (#[trigger] self.channels@[c]).mappings@,
                self.channels@[c].length as int,
            )
    }

    /// `error` names the first channel with an invalid mapping list, and the
    /// first refused mapping of that list.
    pub open spec fn first_error(&self, error: TopologyError) -> bool {
        &&& error.channel < self.channels@.len()
        &&& forall|c: int|
            0 <= c < error.channel ==> crate::control::mapping::mappings_valid(
                (#[trigger] self.channels@[c]).mappings@,
                self.channels@[c].length as int,
            )
        &&& crate::control::mapping::is_first_fault(
            self.channels@[error.channel as int].mappings@,
            self.channels@[error.channel as int].length as int,
            crate::control::mapping::MappingFault { mapping: error.mapping, kind: error.kind },
        )
    }
}

/// Looks up the name of strip `id` in `strips`.
pub fn find_strip_name(strips: &Vec<StripConfig>, id: LEDAddress) -> (name: String)
    ensures
        name@ == strip_name(strips@, id),
{
    let n = strips.len();
    let mut i: usize = 0;
    assert(strips@.subrange(0, n as int) == strips@);
    while i < n
        invariant
            n == strips@.len(),
            i <= n,
            strip_name(strips@, id) == strip_name(strips@.subrange(i as int, n as int), id),
        decreases n - i,
    {
        let ghost rest = strips@.subrange(i as int, n as int);
        assert(rest[0] == strips@[i as int]);
        assert(rest.drop_first() == strips@.subrange(i + 1, n as int));
        if strips[i].id == id {
            return strips[i].name.clone();
        }
        i += 1;
    }
    assert(strips@.subrange(n as int, n as int).len() == 0);
    String::new()
}

} // verus!
