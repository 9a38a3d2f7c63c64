use vstd::prelude::*;
use super::ledchannel::LEDChannel;
use super::ledcontroller::{ControllerLocation, LEDController};
use super::ledstrip::LEDStrip;
use super::mapping::{ChannelMapping, LEDAddress};
use super::topology::{find_strip_name, ControllerConfig, StripConfig, Topology, TopologyError};

verus! {

/// Where a channel stands: in which of the two lists, and at which position.
#[derive(Debug, Copy, Clone, PartialEq, Eq, Structural)]
pub struct Place {
    pub active: bool,
    pub index: usize,
}

/// What `activate` and `deactivate` did.
#[derive(Debug, Copy, Clone, PartialEq, Eq, Structural)]
pub enum SwitchOutcome {
    /// The channel changed lists.
    Moved,
    /// The channel was in the wanted list already; nothing changed.
    AlreadySet,
    /// The array has no channel with this identifier; nothing changed.
    UnknownChannel,
}

/// The registry of everything that is rendered and flushed: the channels that
/// take part in frames, the channels that are switched off but kept, and the
/// controllers with their strips.
///
/// A channel's identifier is its position in the topology from which the
/// array was built. Every channel is in exactly one of the two lists, and
/// moving it between them changes neither its buffer nor its mappings.
///
/// Controllers, and the strips of a controller, are keyed by identifier: the
/// invariant keeps the identifiers unique. They stand in vectors, in the
/// order in which the topology gave them, so that a flush sends its frames
/// in one fixed order.
#[derive(Debug)]
pub struct LEDArray {
    channels: Vec<LEDChannel>,
    inactive_channels: Vec<LEDChannel>,
    controllers: Vec<LEDController>,
    active_ids: Vec<usize>,
    inactive_ids: Vec<usize>,
    places: Vec<Place>,
}

/// The strips `strips` are the views that the mappings `from` define, in
/// order, each under the name that `names` gives to its strip.
pub open spec fn strips_from(
    strips: Seq<LEDStrip>,
    names: Seq<StripConfig>,
    from: Seq<(int, ChannelMapping)>,
) -> bool {
    &&& strips.len() == from.len()
    &&& forall|s: int|
        0 <= s < strips.len() ==> {
            &&& (#[trigger] strips[s]).views(from[s].0, from[s].1)
            &&& strips[s].name@ == crate::control::topology::strip_name(names, from[s].1.strip_id)
        }
}

/// The controller `controller` is what is built from its announcement
/// `config` and the mapping lists `layouts` of the channels: it has one strip
/// for every strip identifier that a mapping naming it gives, as the first
/// such mapping defines it.
pub open spec fn controller_from(
    controller: LEDController,
    config: ControllerConfig,
    layouts: Seq<Seq<ChannelMapping>>,
) -> bool {
    &&& controller.id == config.id
    &&& controller.location == config.location
    &&& strips_from(
        controller.strips@,
        config.strips@,
        crate::control::topology::firsts(
            crate::control::topology::sources(config.id, layouts),
            crate::control::topology::source_key(),
        ),
    )
}

/// The mapping lists of `channels`, position by position.
pub open spec fn layouts_of(channels: Seq<LEDChannel>) -> Seq<Seq<ChannelMapping>> {
    Seq::new(channels.len(), |c: int| channels[c].layout())
}

impl LEDArray {
    /// The channels that take part in frames, in the order in which a frame
    /// updates them.
    pub closed spec fn active(&self) -> Seq<LEDChannel> {
        self.channels@
    }

    /// The channels that are switched off.
    pub closed spec fn inactive(&self) -> Seq<LEDChannel> {
        self.inactive_channels@
    }

    pub closed spec fn controllers(&self) -> Seq<LEDController> {
        self.controllers@
    }

    /// The identifiers of the active channels, position by position.
    pub closed spec fn active_ids(&self) -> Seq<usize> {
        self.active_ids@
    }

    /// The identifiers of the inactive channels, position by position.
    pub closed spec fn inactive_ids(&self) -> Seq<usize> {
        self.inactive_ids@
    }

    /// The place of every channel, by identifier.
    pub closed spec fn places(&self) -> Seq<Place> {
        self.places@
    }

    /// Number of channels, active and inactive.
    pub open spec fn count(&self) -> nat {
        self.places().len()
    }

    pub open spec fn is_active(&self, id: int) -> bool {
        self.places()[id].active
    }

    /// The channel with identifier `id`, in whichever list it stands.
    pub open spec fn channel(&self, id: int) -> LEDChannel {
        if self.places()[id].active {
            self.active()[self.places()[id].index as int]
        } else {
            self.inactive()[self.places()[id].index as int]
        }
    }

    /// The two lists and the places agree: every position of a list holds the
    /// channel whose place it is, and every place names such a position.
    pub open spec fn placed(&self) -> bool {
        &&& self.active_ids().len() == self.active().len()
        &&& self.inactive_ids().len() == self.inactive().len()
        &&& self.places().len() == self.active().len() + self.inactive().len()
        &&& forall|p: int|
            0 <= p < self.active_ids().len() ==> {
                &&& (#[trigger] self.active_ids()[p]) < self.places().len()
                &&& self.places()[self.active_ids()[p] as int] == (Place { active: true, index: p as usize })
            }
        &&& forall|p: int|
            0 <= p < self.inactive_ids().len() ==> {
                &&& (#[trigger] self.inactive_ids()[p]) < self.places().len()
                &&& self.places()[self.inactive_ids()[p] as int] == (Place {
                    active: false,
                    index: p as usize,
                })
            }
        &&& forall|id: int|
            0 <= id < self.places().len() ==> if (#[trigger] self.places()[id]).active {
                &&& self.places()[id].index < self.active_ids().len()
                &&& self.active_ids()[self.places()[id].index as int] == id
            } else {
                &&& self.places()[id].index < self.inactive_ids().len()
                &&& self.inactive_ids()[self.places()[id].index as int] == id
            }
    }

    /// Identifiers are unique: no two controllers share one, and no two
    /// strips of one controller do.
    pub open spec fn addressed(&self) -> bool {
        &&& forall|j: int, k: int|
            #![trigger self.controllers()[j], self.controllers()[k]]
            0 <= j < k < self.controllers().len() ==> self.controllers()[j].id
                != self.controllers()[k].id
        &&& forall|k: int|
            0 <= k < self.controllers().len() ==> (#[trigger] self.controllers()[k]).distinct_strips()
    }

    /// The strip stands for a mapping of the channel that it names.
    pub open spec fn backs(&self, controller_id: LEDAddress, strip: LEDStrip) -> bool {
        &&& strip.channel < self.count()
        &&& self.channel(strip.channel as int).layout().contains(strip.mapping(controller_id))
    }

    /// The array's invariant: the lists and places agree, identifiers are
    /// unique, every channel's mapping list is valid, and every strip stands
    /// for a mapping of its channel.
    pub open spec fn wf(&self) -> bool {
        &&& self.placed()
        &&& self.addressed()
        &&& forall|p: int| 0 <= p < self.active().len() ==> (#[trigger] self.active()[p]).wf()
        &&& forall|p: int| 0 <= p < self.inactive().len() ==> (#[trigger] self.inactive()[p]).wf()
        &&& forall|k: int, s: int|
            0 <= k < self.controllers().len() && 0 <= s < self.controllers()[k].strips@.len()
                ==> self.backs(self.controllers()[k].id, #[trigger] self.controllers()[k].strips@[s])
    }

    /// The two arrays agree on where every channel stands, and on the
    /// channels that are switched off.
    pub open spec fn same_standing(&self, other: &LEDArray) -> bool {
        &&& self.inactive() == other.inactive()
        &&& self.active_ids() == other.active_ids()
        &&& self.inactive_ids() == other.inactive_ids()
        &&& self.places() == other.places()
    }

    /// The two arrays differ at most in their active channels.
    pub open spec fn same_rest(&self, other: &LEDArray) -> bool {
        &&& self.same_standing(other)
        &&& self.controllers() == other.controllers()
    }

    /// `after` is the array once channel `id` has been taken out of the
    /// frames: the channel is the last of the inactive list, the last active
    /// channel stands where it stood, and no channel has changed. Where
    /// the array has no such channel, or the channel is inactive already,
    /// `after` is the array as it was.
    pub open spec fn turned_off(&self, id: usize, after: &LEDArray) -> bool {
        if id < self.count() && self.is_active(id as int) {
            let at = self.places()[id as int].index as int;
            &&& after.controllers() == self.controllers()
            &&& after.count() == self.count()
            &&& forall|j: int|
                0 <= j < self.count() ==> {
                    &&& #[trigger] after.channel(j) == self.channel(j)
                    &&& after.is_active(j) == (j != id && self.is_active(j))
                }
            &&& after.active() == self.active().update(at, self.active().last()).drop_last()
            &&& after.active_ids() == self.active_ids().update(
                at,
                self.active_ids().last(),
            ).drop_last()
            &&& after.inactive() == self.inactive().push(self.channel(id as int))
            &&& after.inactive_ids() == self.inactive_ids().push(id)
        } else {
            *after == *self
        }
    }

    /// `after` is the array once channel `id` has been put back into the
    /// frames: the channel is the last of the active list, the last inactive
    /// channel stands where it stood, and no channel has changed. Where
    /// the array has no such channel, or the channel is active already,
    /// `after` is the array as it was.
    pub open spec fn turned_on(&self, id: usize, after: &LEDArray) -> bool {
        if id < self.count() && !self.is_active(id as int) {
            let at = self.places()[id as int].index as int;
            &&& after.controllers() == self.controllers()
            &&& after.count() == self.count()
            &&& forall|j: int|
                0 <= j < self.count() ==> {
                    &&& #[trigger] after.channel(j) == self.channel(j)
                    &&& after.is_active(j) == (j == id || self.is_active(j))
                }
            &&& after.inactive() == self.inactive().update(at, self.inactive().last()).drop_last()
            &&& after.inactive_ids() == self.inactive_ids().update(
                at,
                self.inactive_ids().last(),
            ).drop_last()
            &&& after.active() == self.active().push(self.channel(id as int))
            &&& after.active_ids() == self.active_ids().push(id)
        } else {
            *after == *self
        }
    }

    /// The array is what `construct` builds from `topology`: every channel
    /// active and dark, under its position as identifier, and every
    /// controller that the topology announces, with the strips that the
    /// mappings naming it define.
    pub open spec fn built_from(&self, topology: &Topology) -> bool {
        &&& self.inactive().len() == 0
        &&& self.active().len() == topology.channels@.len()
        &&& forall|c: int|
            0 <= c < self.active().len() ==> {
                &&& self.active_ids()[c] == c
                &&& (#[trigger] self.active()[c]).layout() == topology.channels@[c].mappings@
                &&& self.active()[c].spec_precision() == topology.channels@[c].precision
                &&& self.active()[c]@ == Seq::new(
                    topology.channels@[c].length as nat,
                    |i: int| crate::control::ledchannel::DARK,
                )
            }
        &&& self.controllers().len() == topology.announced().len()
        &&& forall|k: int|
            0 <= k < self.controllers().len() ==> controller_from(
                #[trigger] self.controllers()[k],
                topology.announced()[k],
                topology.layouts(),
            )
    }
}

/// Whether one of `strips` has the identifier `id`.
fn has_strip(strips: &Vec<LEDStrip>, id: LEDAddress) -> (found: bool)
    ensures
        found == exists|s: int| 0 <= s < strips@.len() && (#[trigger] strips@[s]).id == id,
{
    let n = strips.len();
    let mut s: usize = 0;
    while s < n
        invariant
            n == strips@.len(),
            s <= n,
            forall|t: int| 0 <= t < s ==> (#[trigger] strips@[t]).id != id,
        decreases n - s,
    {
        if strips[s].id == id {
            return true;
        }
        s += 1;
    }
    false
}

/// Whether one of `controllers` has the identifier `id`.
fn has_controller(controllers: &Vec<LEDController>, id: LEDAddress) -> (found: bool)
    ensures
        found == exists|k: int| 0 <= k < controllers@.len() && (#[trigger] controllers@[k]).id == id,
{
    let n = controllers.len();
    let mut k: usize = 0;
    while k < n
        invariant
            n == controllers@.len(),
            k <= n,
            forall|j: int| 0 <= j < k ==> (#[trigger] controllers@[j]).id != id,
        decreases n - k,
    {
        if controllers[k].id == id {
            return true;
        }
        k += 1;
    }
    false
}

/// Strips that are the views of mappings have an identifier exactly where
/// one of the mappings names it.
proof fn lemma_strips_keyed(
    strips: Seq<LEDStrip>,
    names: Seq<StripConfig>,
    from: Seq<(int, ChannelMapping)>,
    id: LEDAddress,
)
    requires
        strips_from(strips, names, from),
    ensures
        (exists|s: int| 0 <= s < strips.len() && (#[trigger] strips[s]).id == id)
            == crate::control::topology::keyed(from, crate::control::topology::source_key(), id),
{
    let key = crate::control::topology::source_key();
    if exists|s: int| 0 <= s < strips.len() && (#[trigger] strips[s]).id == id {
        let s = choose|s: int| 0 <= s < strips.len() && (#[trigger] strips[s]).id == id;
        assert(strips[s].views(from[s].0, from[s].1));
        assert(key(from[s]) == id);
    }
    if crate::control::topology::keyed(from, key, id) {
        let s = choose|s: int| 0 <= s < from.len() && key(#[trigger] from[s]) == id;
        assert(strips[s].views(from[s].0, from[s].1));
    }
}

/// Builds the strips of controller `config`: one for every strip identifier
/// that a mapping of `channels` naming the controller gives, channel by
/// channel, as the first such mapping defines it.
fn attach_strips(config: &ControllerConfig, channels: &Vec<LEDChannel>) -> (strips: Vec<LEDStrip>)
    ensures
        strips_from(
            strips@,
            config.strips@,
            crate::control::topology::firsts(
                crate::control::topology::sources(config.id, layouts_of(channels@)),
                crate::control::topology::source_key(),
            ),
        ),
        forall|s: int|
            0 <= s < strips@.len() ==> {
                &&& (#[trigger] strips@[s]).channel < channels@.len()
                &&& channels@[strips@[s].channel as int].layout().contains(
                    strips@[s].mapping(config.id),
                )
            },
        forall|s: int, t: int|
            #![trigger strips@[s], strips@[t]]
            0 <= s < t < strips@.len() ==> strips@[s].id != strips@[t].id,
{
    let ghost layouts = layouts_of(channels@);
    let ghost key = crate::control::topology::source_key();
    let mut strips: Vec<LEDStrip> = Vec::new();
    let n = channels.len();
    let mut c: usize = 0;
    assert(layouts.subrange(0, 0) =~= Seq::empty());
    while c < n
        invariant
            n == channels@.len(),
            c <= n,
            layouts == layouts_of(channels@),
            key == crate::control::topology::source_key(),
            strips_from(
                strips@,
                config.strips@,
                crate::control::topology::firsts(
                    crate::control::topology::sources(config.id, layouts.subrange(0, c as int)),
                    key,
                ),
            ),
            forall|s: int|
                0 <= s < strips@.len() ==> {
                    &&& (#[trigger] strips@[s]).channel < channels@.len()
                    &&& channels@[strips@[s].channel as int].layout().contains(
                        strips@[s].mapping(config.id),
                    )
                },
        decreases n - c,
    {
        let map = channels[c].mappings();
        let ghost done = crate::control::topology::sources(config.id, layouts.subrange(0, c as int));
        let count = map.len();
        let mut m: usize = 0;
        assert(map@.subrange(0, 0) =~= Seq::empty());
        assert(done + Seq::<(int, ChannelMapping)>::empty() =~= done);
        while m < count
            invariant
                n == channels@.len(),
                c < n,
                count == map@.len(),
                m <= count,
                map@ == channels@[c as int].layout(),
                key == crate::control::topology::source_key(),
                strips_from(
                    strips@,
                    config.strips@,
                    crate::control::topology::firsts(
                        done + crate::control::topology::channel_sources(
                            config.id,
                            c as int,
                            map@.subrange(0, m as int),
                        ),
                        key,
                    ),
                ),
                forall|s: int|
                    0 <= s < strips@.len() ==> {
                        &&& (#[trigger] strips@[s]).channel < channels@.len()
                        &&& channels@[strips@[s].channel as int].layout().contains(
                            strips@[s].mapping(config.id),
                        )
                    },
            decreases count - m,
        {
            let mapping = map[m];
            let ghost before = crate::control::topology::channel_sources(
                config.id,
                c as int,
                map@.subrange(0, m as int),
            );
            proof {
                let next = map@.subrange(0, m + 1);
                assert(next.drop_last() =~= map@.subrange(0, m as int));
                assert(next.last() == mapping);
            }
            if mapping.controller_id == config.id {
                let ghost seen = done + before;
                let ghost source = (c as int, mapping);
                proof {
                    assert(done + before.push(source) =~= seen.push(source));
                    assert(seen.push(source).drop_last() =~= seen);
                    assert(seen.push(source).last() == source);
                    lemma_strips_keyed(
                        strips@,
                        config.strips@,
                        crate::control::topology::firsts(seen, key),
                        mapping.strip_id,
                    );
                    crate::control::topology::lemma_firsts(seen, key);
                }
                if !has_strip(&strips, mapping.strip_id) {
                    let name = find_strip_name(&config.strips, mapping.strip_id);
                    let strip = LEDStrip {
                        id: mapping.strip_id,
                        name,
                        channel: c,
                        start: mapping.start,
                        end: mapping.end,
                    };
                    proof {
                        assert(strip.mapping(config.id) == mapping);
                        assert(map@[m as int] == mapping);
                    }
                    strips.push(strip);
                }
            }
            m += 1;
        }
        proof {
            assert(map@.subrange(0, count as int) =~= map@);
            let next = layouts.subrange(0, c + 1);
            assert(next.drop_last() =~= layouts.subrange(0, c as int));
            assert(next.last() == map@);
        }
        c += 1;
    }
    proof {
        assert(layouts.subrange(0, n as int) =~= layouts);
        let from = crate::control::topology::firsts(
            crate::control::topology::sources(config.id, layouts),
            key,
        );
        crate::control::topology::lemma_firsts(
            crate::control::topology::sources(config.id, layouts),
            key,
        );
        assert forall|s: int, t: int|
            #![trigger strips@[s], strips@[t]]
            0 <= s < t < strips@.len() implies strips@[s].id != strips@[t].id by {
            assert(strips@[s].views(from[s].0, from[s].1));
            assert(strips@[t].views(from[t].0, from[t].1));
            assert(key(from[s]) != key(from[t]));
        }
    }
    strips
}

impl LEDArray {
    /// Builds the array that `topology` describes, with every channel active
    /// and dark. Every channel's mapping list is validated: where a mapping
    /// is out of range or overlaps an earlier mapping of its channel, no
    /// array is built, and the error names the first such channel and its
    /// first such mapping.
    ///
    /// Identifiers are unique in the array that is built. Where the
    /// topology announces an identifier twice, the first announcement
    /// stands; where two mappings name the same strip of a controller, the
    /// strip shows what the first of them maps, and the range of the other is
    /// sent nowhere. A mapping that names a controller that is not announced
    /// defines no strip.
    pub fn construct(topology: &Topology) -> (built: Result<LEDArray, TopologyError>)
        ensures
            built is Ok <==> topology.valid(),
            built matches Ok(array) ==> array.wf() && array.built_from(topology),
            built matches Err(error) ==> topology.first_error(error),
    {
        let mut channels: Vec<LEDChannel> = Vec::new();
        let mut active_ids: Vec<usize> = Vec::new();
        let mut places: Vec<Place> = Vec::new();
        let n = topology.channels.len();
        let mut c: usize = 0;
        while c < n
            invariant
                n == topology.channels@.len(),
                c <= n,
                channels@.len() == c,
                active_ids@.len() == c,
                places@.len() == c,
                forall|i: int|
                    0 <= i < c ==> crate::control::mapping::mappings_valid(
                        (#[trigger] topology.channels@[i]).mappings@,
                        topology.channels@[i].length as int,
                    ),
                forall|i: int|
                    0 <= i < c ==> {
                        &&& (#[trigger] channels@[i]).wf()
                        &&& channels@[i].layout() == topology.channels@[i].mappings@
                        &&& channels@[i].spec_precision() == topology.channels@[i].precision
                        &&& channels@[i]@ == Seq::new(
                            topology.channels@[i].length as nat,
                            |o: int| crate::control::ledchannel::DARK,
                        )
                    },
                forall|i: int| 0 <= i < c ==> #[trigger] active_ids@[i] == i,
                forall|i: int|
                    0 <= i < c ==> #[trigger] places@[i] == (Place { active: true, index: i as usize }),
            decreases n - c,
        {
            let config = &topology.channels[c];
            let map = config.mappings.clone();
            assert(map@ =~= config.mappings@);
            match LEDChannel::new(config.length, config.precision, map) {
                Err(fault) => {
                    return Err(TopologyError { channel: c, mapping: fault.mapping, kind: fault.kind });
                },
                Ok(channel) => {
                    channels.push(channel);
                    active_ids.push(c);
                    places.push(Place { active: true, index: c });
                },
            }
            c += 1;
        }
        let mut controllers: Vec<LEDController> = Vec::new();
        let count = topology.controllers.len();
        let ghost key = crate::control::topology::controller_key();
        let ghost configs = topology.controllers@;
        let mut k: usize = 0;
        assert(layouts_of(channels@) =~= topology.layouts());
        assert(configs.subrange(0, 0) =~= Seq::empty());
        while k < count
            invariant
                count == topology.controllers@.len(),
                configs == topology.controllers@,
                key == crate::control::topology::controller_key(),
                k <= count,
                layouts_of(channels@) == topology.layouts(),
                controllers@.len() == crate::control::topology::firsts(
                    configs.subrange(0, k as int),
                    key,
                ).len(),
                forall|j: int|
                    0 <= j < controllers@.len() ==> controller_from(
                        #[trigger] controllers@[j],
                        crate::control::topology::firsts(configs.subrange(0, k as int), key)[j],
                        topology.layouts(),
                    ),
                forall|j: int|
                    0 <= j < controllers@.len() ==> (#[trigger] controllers@[j]).distinct_strips(),
                forall|j: int, s: int|
                    0 <= j < controllers@.len() && 0 <= s < controllers@[j].strips@.len() ==> {
                        &&& (#[trigger] controllers@[j].strips@[s]).channel < channels@.len()
                        &&& channels@[controllers@[j].strips@[s].channel as int].layout().contains(
                            controllers@[j].strips@[s].mapping(controllers@[j].id),
                        )
                    },
            decreases count - k,
        {
            let config = &topology.controllers[k];
            proof {
                let seen = configs.subrange(0, k as int);
                let next = configs.subrange(0, k + 1);
                assert(next.drop_last() =~= seen);
                assert(next.last() == *config);
                let kept = crate::control::topology::firsts(seen, key);
                crate::control::topology::lemma_firsts(seen, key);
                if exists|j: int| 0 <= j < controllers@.len() && (#[trigger] controllers@[j]).id == config.id {
                    let j = choose|j: int|
                        0 <= j < controllers@.len() && (#[trigger] controllers@[j]).id == config.id;
                    assert(controller_from(controllers@[j], kept[j], topology.layouts()));
                    assert(key(kept[j]) == config.id);
                }
                if crate::control::topology::keyed(kept, key, config.id) {
                    let j = choose|j: int| 0 <= j < kept.len() && key(#[trigger] kept[j]) == config.id;
                    assert(controller_from(controllers@[j], kept[j], topology.layouts()));
                }
            }
            if !has_controller(&controllers, config.id) {
                let strips = attach_strips(config, &channels);
                controllers.push(LEDController { id: config.id, location: config.location, strips });
            }
            k += 1;
        }
        proof {
            assert(configs.subrange(0, count as int) =~= configs);
            crate::control::topology::lemma_firsts(configs, key);
            let kept = topology.announced();
            assert forall|i: int, j: int|
                #![trigger controllers@[i], controllers@[j]]
                0 <= i < j < controllers@.len() implies controllers@[i].id != controllers@[j].id by {
                assert(controller_from(controllers@[i], kept[i], topology.layouts()));
                assert(controller_from(controllers@[j], kept[j], topology.layouts()));
                assert(key(kept[i]) != key(kept[j]));
            }
        }
        let array = LEDArray {
            channels,
            inactive_channels: Vec::new(),
            controllers,
            active_ids,
            inactive_ids: Vec::new(),
            places,
        };
        Ok(array)
    }
}

impl LEDArray {
    /// The active channels, in the order in which a frame updates them.
    pub fn get_channels(&self) -> (channels: &Vec<LEDChannel>)
        ensures
            channels@ == self.active(),
    {
        &self.channels
    }

    /// The active channels for writing. Nothing else of the array changes,
    /// whatever is done with them.
    pub fn get_channels_mut(&mut self) -> (channels: &mut Vec<LEDChannel>)
        ensures
            channels@ == old(self).active(),
            final(self).active() == final(channels)@,
            final(self).same_rest(old(self)),
    {
        &mut self.channels
    }

    /// The channels that are switched off.
    pub fn get_inactive_channels(&self) -> (channels: &Vec<LEDChannel>)
        ensures
            channels@ == self.inactive(),
    {
        &self.inactive_channels
    }

    pub fn get_controllers(&self) -> (controllers: &Vec<LEDController>)
        ensures
            controllers@ == self.controllers(),
    {
        &self.controllers
    }

    /// Number of channels, active and inactive.
    pub fn channel_count(&self) -> (n: usize)
        ensures
            n == self.count(),
    {
        self.places.len()
    }

    /// The channel with identifier `id`, in whichever list it stands.
    pub fn get_channel(&self, id: usize) -> (channel: &LEDChannel)
        requires
            self.wf(),
            id < self.count(),
        ensures
            *channel == self.channel(id as int),
    {
        let place = self.places[id];
        if place.active {
            &self.channels[place.index]
        } else {
            &self.inactive_channels[place.index]
        }
    }

    /// The channel with identifier `id` and whether it is active, or `None`
    /// where the array has no such channel.
    pub fn find_channel(&self, id: usize) -> (found: Option<(&LEDChannel, bool)>)
        requires
            self.wf(),
        ensures
            found is Some <==> id < self.count(),
            found matches Some((channel, active)) ==> {
                &&& *channel == self.channel(id as int)
                &&& active == self.is_active(id as int)
            },
    {
        if id >= self.places.len() {
            return None;
        }
        Some((self.get_channel(id), self.places[id].active))
    }

    /// Takes channel `id` out of the frames. Its buffer and mappings stay as
    /// they are. The last active channel takes its position in the active
    /// list; every other channel keeps its own.
    pub fn deactivate(&mut self, id: usize) -> (outcome: SwitchOutcome)
        requires
            old(self).wf(),
        ensures
            final(self).wf(),
            outcome == SwitchOutcome::UnknownChannel <==> id >= old(self).count(),
            outcome == SwitchOutcome::AlreadySet <==> id < old(self).count() && !old(self).is_active(
                id as int,
            ),
            outcome == SwitchOutcome::Moved <==> id < old(self).count() && old(self).is_active(
                id as int,
            ),
            old(self).turned_off(id, final(self)),
    {
        if id >= self.places.len() {
            return SwitchOutcome::UnknownChannel;
        }
        let place = self.places[id];
        if !place.active {
            return SwitchOutcome::AlreadySet;
        }
        let last = self.channels.len() - 1;
        let moved_id = self.active_ids[last];
        let channel = self.channels.swap_remove(place.index);
        self.active_ids.swap_remove(place.index);
        self.places[moved_id] = Place { active: true, index: place.index };
        let target = self.inactive_channels.len();
        self.inactive_channels.push(channel);
        self.inactive_ids.push(id);
        self.places[id] = Place { active: false, index: target };
        proof {
            assert(self.placed());
            assert forall|j: int| 0 <= j < old(self).count() implies {
                &&& #[trigger] self.channel(j) == old(self).channel(j)
                &&& self.is_active(j) == (j != id && old(self).is_active(j))
            } by {
                assert(old(self).places()[j].index < old(self).count());
            }
            assert forall|k: int, s: int|
                0 <= k < self.controllers().len() && 0 <= s < self.controllers()[k].strips@.len()
                implies self.backs(self.controllers()[k].id, #[trigger] self.controllers()[k].strips@[s]) by {
                let strip = old(self).controllers()[k].strips@[s];
                assert(old(self).backs(old(self).controllers()[k].id, strip));
                assert(self.channel(strip.channel as int) == old(self).channel(strip.channel as int));
            }
        }
        SwitchOutcome::Moved
    }
}

impl LEDArray {
    /// Puts channel `id` back into the frames, as the last of the active
    /// list, with its buffer and mappings as they are. The last inactive
    /// channel takes its position in the inactive list.
    pub fn activate(&mut self, id: usize) -> (outcome: SwitchOutcome)
        requires
            old(self).wf(),
        ensures
            final(self).wf(),
            outcome == SwitchOutcome::UnknownChannel <==> id >= old(self).count(),
            outcome == SwitchOutcome::AlreadySet <==> id < old(self).count() && old(self).is_active(
                id as int,
            ),
            outcome == SwitchOutcome::Moved <==> id < old(self).count() && !old(self).is_active(
                id as int,
            ),
            old(self).turned_on(id, final(self)),
    {
        if id >= self.places.len() {
            return SwitchOutcome::UnknownChannel;
        }
        let place = self.places[id];
        if place.active {
            return SwitchOutcome::AlreadySet;
        }
        let last = self.inactive_channels.len() - 1;
        let moved_id = self.inactive_ids[last];
        let channel = self.inactive_channels.swap_remove(place.index);
        self.inactive_ids.swap_remove(place.index);
        self.places[moved_id] = Place { active: false, index: place.index };
        let target = self.channels.len();
        self.channels.push(channel);
        self.active_ids.push(id);
        self.places[id] = Place { active: true, index: target };
        proof {
            assert(self.placed());
            assert forall|j: int| 0 <= j < old(self).count() implies {
                &&& #[trigger] self.channel(j) == old(self).channel(j)
                &&& self.is_active(j) == (j == id || old(self).is_active(j))
            } by {
                assert(old(self).places()[j].index < old(self).count());
            }
            assert forall|k: int, s: int|
                0 <= k < self.controllers().len() && 0 <= s < self.controllers()[k].strips@.len()
                implies self.backs(self.controllers()[k].id, #[trigger] self.controllers()[k].strips@[s]) by {
                let strip = old(self).controllers()[k].strips@[s];
                assert(old(self).backs(old(self).controllers()[k].id, strip));
                assert(self.channel(strip.channel as int) == old(self).channel(strip.channel as int));
            }
        }
        SwitchOutcome::Moved
    }

    /// Records a new network location for the controller with identifier
    /// `controller_id`, and says whether there is one. Strips and channels
    /// stay as they are.
    pub fn relocate(&mut self, controller_id: LEDAddress, location: ControllerLocation) -> (found:
        bool)
        requires
            old(self).wf(),
        ensures
            final(self).wf(),
            final(self).active() == old(self).active(),
            final(self).same_standing(old(self)),
            found <==> exists|k: int|
                0 <= k < old(self).controllers().len() && (#[trigger] old(self).controllers()[k]).id
                    == controller_id,
            final(self).controllers().len() == old(self).controllers().len(),
            forall|k: int|
                0 <= k < old(self).controllers().len() ==> {
                    &&& (#[trigger] final(self).controllers()[k]).id == old(self).controllers()[k].id
                    &&& final(self).controllers()[k].strips == old(self).controllers()[k].strips
                    &&& final(self).controllers()[k].location == if old(self).controllers()[k].id
                        == controller_id {
                        location
                    } else {
                        old(self).controllers()[k].location
                    }
                },
    {
        let n = self.controllers.len();
        let mut found = false;
        let mut k: usize = 0;
        while k < n
            invariant
                n == self.controllers().len(),
                n == old(self).controllers().len(),
                k <= n,
                self.active() == old(self).active(),
                self.same_standing(old(self)),
                found <==> exists|j: int|
                    0 <= j < k && (#[trigger] old(self).controllers()[j]).id == controller_id,
                forall|j: int|
                    0 <= j < k ==> {
                        &&& (#[trigger] self.controllers()[j]).id == old(self).controllers()[j].id
                        &&& self.controllers()[j].strips == old(self).controllers()[j].strips
                        &&& self.controllers()[j].location == if old(self).controllers()[j].id
                            == controller_id {
                            location
                        } else {
                            old(self).controllers()[j].location
                        }
                    },
                forall|j: int| k <= j < n ==> self.controllers()[j] == old(self).controllers()[j],
            decreases n - k,
        {
            if self.controllers[k].id == controller_id {
                self.controllers[k].location = location;
                found = true;
            }
            k += 1;
        }
        proof {
            assert forall|j: int, s: int|
                0 <= j < self.controllers().len() && 0 <= s < self.controllers()[j].strips@.len()
                implies self.backs(self.controllers()[j].id, #[trigger] self.controllers()[j].strips@[s]) by {
                let strip = old(self).controllers()[j].strips@[s];
                assert(old(self).backs(old(self).controllers()[j].id, strip));
            }
        }
        found
    }
}

/// In a well-formed array every channel's mapping list is valid, whichever
/// list the channel stands in.
pub proof fn lemma_channel_wf(array: &LEDArray, id: int)
    requires
        array.wf(),
        0 <= id < array.count(),
    ensures
        array.channel(id).wf(),
{
    let place = array.places()[id];
    if place.active {
        assert(array.active()[place.index as int].wf());
    } else {
        assert(array.inactive()[place.index as int].wf());
    }
}

/// In a well-formed array every strip shows a range that lies inside the
/// buffer of the channel that it names.
pub proof fn lemma_strip_in_range(array: &LEDArray, k: int, s: int)
    requires
        array.wf(),
        0 <= k < array.controllers().len(),
        0 <= s < array.controllers()[k].strips@.len(),
    ensures
        array.controllers()[k].strips@[s].channel < array.count(),
        array.controllers()[k].strips@[s].start <= array.controllers()[k].strips@[s].end
            <= array.channel(array.controllers()[k].strips@[s].channel as int)@.len(),
{
    let strip = array.controllers()[k].strips@[s];
    assert(array.backs(array.controllers()[k].id, strip));
    let channel = array.channel(strip.channel as int);
    lemma_channel_wf(array, strip.channel as int);
    let mapping = strip.mapping(array.controllers()[k].id);
    let i = choose|i: int| 0 <= i < channel.layout().len() && channel.layout()[i] == mapping;
    assert(channel.layout()[i].in_range(channel@.len() as int));
}

/// An array stays well-formed when only the content of its active channels'
/// buffers changes.
pub proof fn lemma_repainted(before: &LEDArray, after: &LEDArray)
    requires
        before.wf(),
        after.same_rest(before),
        after.active().len() == before.active().len(),
        forall|p: int|
            0 <= p < before.active().len() ==> (#[trigger] after.active()[p]).same_layout(
                &before.active()[p],
            ),
    ensures
        after.wf(),
        after.count() == before.count(),
        forall|id: int|
            0 <= id < before.count() ==> {
                &&& after.is_active(id) == before.is_active(id)
                &&& (#[trigger] after.channel(id)).same_layout(&before.channel(id))
                &&& !before.is_active(id) ==> after.channel(id) == before.channel(id)
            },
{
    assert forall|p: int| 0 <= p < after.active().len() implies (#[trigger] after.active()[p]).wf() by {
        assert(before.active()[p].wf());
        assert(after.active()[p].same_layout(&before.active()[p]));
    }
    assert forall|id: int| 0 <= id < before.count() implies {
        &&& after.is_active(id) == before.is_active(id)
        &&& (#[trigger] after.channel(id)).same_layout(&before.channel(id))
        &&& !before.is_active(id) ==> after.channel(id) == before.channel(id)
    } by {
        let place = before.places()[id];
        if place.active {
            assert(after.active()[place.index as int].same_layout(&before.active()[place.index as int]));
        }
    }
    assert forall|k: int, s: int|
        0 <= k < after.controllers().len() && 0 <= s < after.controllers()[k].strips@.len()
        implies after.backs(after.controllers()[k].id, #[trigger] after.controllers()[k].strips@[s]) by {
        let strip = before.controllers()[k].strips@[s];
        assert(before.backs(before.controllers()[k].id, strip));
        assert(after.channel(strip.channel as int).same_layout(&before.channel(strip.channel as int)));
    }
}

/// In a well-formed array no virtual offset of a channel is delivered by two
/// of the channel's mappings.
pub proof fn lemma_offset_mapped_once(array: &LEDArray, id: int, offset: int, i: int, j: int)
    requires
        array.wf(),
        0 <= id < array.count(),
        0 <= i < array.channel(id).layout().len(),
        0 <= j < array.channel(id).layout().len(),
        i != j,
        array.channel(id).layout()[i].covers(offset),
    ensures
        !array.channel(id).layout()[j].covers(offset),
{
    lemma_channel_wf(array, id);
    let layout = array.channel(id).layout();
    if layout[j].covers(offset) {
        if i < j {
            assert(layout[i].overlaps(&layout[j]));
        } else {
            assert(layout[j].overlaps(&layout[i]));
        }
    }
}

impl LEDArray {
    /// The controller with identifier `id`, or `None` where the array has
    /// none. A well-formed array has at most one.
    pub fn find_controller(&self, id: LEDAddress) -> (found: Option<&LEDController>)
        ensures
            found is None <==> forall|k: int|
                0 <= k < self.controllers().len() ==> (#[trigger] self.controllers()[k]).id != id,
            found matches Some(controller) ==> controller.id == id && exists|k: int|
                0 <= k < self.controllers().len() && #[trigger] self.controllers()[k] == *controller
                    && forall|j: int| 0 <= j < k ==> (#[trigger] self.controllers()[j]).id != id,
    {
        let n = self.controllers.len();
        let mut k: usize = 0;
        while k < n
            invariant
                n == self.controllers().len(),
                k <= n,
                forall|j: int| 0 <= j < k ==> (#[trigger] self.controllers()[j]).id != id,
            decreases n - k,
        {
            if self.controllers[k].id == id {
                return Some(&self.controllers[k]);
            }
            k += 1;
        }
        None
    }

    /// The identifiers of the active channels, position by position.
    pub fn get_channel_ids(&self) -> (ids: &Vec<usize>)
        ensures
            ids@ == self.active_ids(),
    {
        &self.active_ids
    }
}

} // verus!
