//! The sound bank: the streams that are playing, one under each id.

use crate::audio::parameters::{Knobs, Parameters};
use vstd::prelude::*;

verus! {

/// One playing sound: its id, its stream, and whether the stream has ended.
pub struct SoundEntry<T> {
    pub id: u64,
    pub buf: T,
    pub consumed: bool,
}

impl<T> SoundEntry<T> {
    /// Takes note of one read of the stream: it gave `frame_count` frames
    /// where `len_frames` were asked for. A stream that gives fewer has ended.
    pub fn process(&mut self, frame_count: usize, len_frames: usize)
        ensures
            final(self).id == old(self).id,
            final(self).buf == old(self).buf,
            final(self).consumed == (old(self).consumed || frame_count < len_frames),
    {
        if frame_count < len_frames {
            self.consumed = true;
        }
    }
}

/// Whether `id` is the id of one of `entries`.
pub open spec fn has_id<T>(entries: Seq<SoundEntry<T>>, id: u64) -> bool {
    exists|i: int| 0 <= i < entries.len() && #[trigger] entries[i].id == id
}

/// The position of `id` among `entries`.
pub open spec fn place<T>(entries: Seq<SoundEntry<T>>, id: u64) -> int {
    choose|i: int| 0 <= i < entries.len() && #[trigger] entries[i].id == id
}

/// No two of `entries` share an id.
pub open spec fn distinct_ids<T>(entries: Seq<SoundEntry<T>>) -> bool {
    forall|i: int, j: int|
        0 <= i < entries.len() && 0 <= j < entries.len() && #[trigger] entries[i].id
            == #[trigger] entries[j].id ==> i == j
}

/// The ids of `entries`, in order.
pub open spec fn ids_of<T>(entries: Seq<SoundEntry<T>>) -> Seq<u64> {
    entries.map_values(|e: SoundEntry<T>| e.id)
}

/// Whether one of `yields` says that the stream of `id` gave fewer than
/// `len_frames` frames.
pub open spec fn ended(yields: Seq<(u64, usize)>, len_frames: usize, id: u64) -> bool {
    exists|j: int| 0 <= j < yields.len() && (#[trigger] yields[j]).0 == id && yields[j].1 < len_frames
}

/// The test that an entry's stream has not ended by what `yields` says.
pub open spec fn goes_on<T>(yields: Seq<(u64, usize)>, len_frames: usize) -> spec_fn(
    SoundEntry<T>,
) -> bool {
    |e: SoundEntry<T>| !ended(yields, len_frames, e.id)
}

/// What holds of the entries of every bank: no id is among them twice, and no
/// stream among them has ended.
pub open spec fn sound<T>(entries: Seq<SoundEntry<T>>) -> bool {
    &&& distinct_ids(entries)
    &&& forall|i: int| 0 <= i < entries.len() ==> !(#[trigger] entries[i]).consumed
}

/// The streams of `entries`, by id.
pub open spec fn streams<T>(entries: Seq<SoundEntry<T>>) -> Map<u64, T> {
    Map::new(|id: u64| has_id(entries, id), |id: u64| entries[place(entries, id)].buf)
}

/// The sound bank.
pub struct Sounds<R, T> {
    params: Parameters<R>,
    sounds: Vec<SoundEntry<T>>,
}

impl<R: Copy, T> Sounds<R, T> {
    /// The entries, in the order in which their ids came.
    pub closed spec fn entries(self) -> Seq<SoundEntry<T>> {
        self.sounds@
    }

    /// What holds of every bank: no id is in it twice, and no stream in it
    /// has ended.
    pub open spec fn wf(self) -> bool {
        sound(self.entries())
    }

    /// The streams that are playing, by id.
    pub open spec fn view(self) -> Map<u64, T> {
        streams(self.entries())
    }

    /// The bank's parameters, as mathematics.
    pub closed spec fn knobs(self) -> Knobs<R> {
        self.params@
    }

    /// An empty bank.
    pub fn new(equilibrium: R) -> (r: Self)
        ensures
            r.wf(),
            r@ == Map::<u64, T>::empty(),
            r.entries().len() == 0,
            r.knobs() == Knobs::empty(equilibrium),
    {
        let r = Sounds { params: Parameters::new(equilibrium), sounds: Vec::new() };
        assert(r@ =~= Map::<u64, T>::empty());
        r
    }

    /// Sets a parameter of the bank.
    pub fn param(&mut self, key: &str, value: R)
        ensures
            final(self).knobs() == old(self).knobs().update(key@, value),
            final(self).entries() == old(self).entries(),
            final(self)@ == old(self)@,
            final(self).wf() == old(self).wf(),
    {
        self.params.update(key, &value);
    }

    /// Where `id` stands among the entries, if it does.
    fn find(&self, id: u64) -> (r: Option<usize>)
        requires
            self.wf(),
        ensures
            match r {
                Some(i) => i < self.sounds@.len() && self.sounds@[i as int].id == id && place(
                    self.sounds@,
                    id,
                ) == i,
                None => !has_id(self.sounds@, id),
            },
    {
        let mut i: usize = 0;
        while i < self.sounds.len()
            invariant
                i <= self.sounds@.len(),
                forall|j: int| 0 <= j < i ==> self.sounds@[j].id != id,
                distinct_ids(self.sounds@),
            decreases self.sounds@.len() - i,
        {
            if self.sounds[i].id == id {
                return Some(i);
            }
            i += 1;
        }
        None
    }

    /// How many sounds are playing.
    pub fn len(&self) -> (n: usize)
        ensures
            n == self.entries().len(),
    {
        self.sounds.len()
    }

    /// The ids of the sounds that are playing, in the order in which they
    /// came.
    pub fn live(&self) -> (r: Vec<u64>)
        ensures
            r@ == ids_of(self.entries()),
    {
        let mut out: Vec<u64> = Vec::new();
        let mut i: usize = 0;
        while i < self.sounds.len()
            invariant
                i <= self.sounds@.len(),
                out@ == ids_of(self.sounds@.take(i as int)),
            decreases self.sounds@.len() - i,
        {
            out.push(self.sounds[i].id);
            assert(out@ =~= ids_of(self.sounds@.take(i + 1)));
            i += 1;
        }
        assert(self.sounds@.take(i as int) == self.sounds@);
        out
    }

    /// Starts `buf` under `id`. A sound that was playing under this id is
    /// dropped and the new one takes its place.
    pub fn on(&mut self, id: u64, buf: T)
        requires
            old(self).wf(),
        ensures
            final(self).wf(),
            final(self)@ == old(self)@.insert(id, buf),
            final(self).entries() == if has_id(old(self).entries(), id) {
                old(self).entries().update(
                    place(old(self).entries(), id),
                    SoundEntry { id, buf, consumed: false },
                )
            } else {
                old(self).entries().push(SoundEntry { id, buf, consumed: false })
            },
            final(self).knobs() == old(self).knobs(),
    {
        let ghost before = self.sounds@;
        let found = self.find(id);
        let ghost at: int = match found {
            Some(i) => i as int,
            None => before.len() as int,
        };
        let entry = SoundEntry { id, buf, consumed: false };
        match found {
            Some(i) => {
                self.sounds[i] = entry;
            },
            None => {
                self.sounds.push(entry);
            },
        }
        proof {
            let after = self.sounds@;
            assert(after[at].id == id && after[at].buf == buf);
            assert forall|j: int| 0 <= j < before.len() && j != at implies after[j] == before[j] by {}
            assert forall|j: int| 0 <= j < before.len() implies after[j].id == before[j].id by {}
            assert forall|k: u64| has_id(after, k) <==> (has_id(before, k) || k == id) by {
                if has_id(after, k) {
                    let j = place(after, k);
                    if j < before.len() {
                        assert(before[j].id == k);
                    }
                }
                if has_id(before, k) {
                    let j = place(before, k);
                    assert(after[j].id == k);
                }
            }
            assert forall|k: u64| has_id(after, k) implies after[place(after, k)].buf == (if k
                == id {
                buf
            } else {
                before[place(before, k)].buf
            }) by {
                let j = place(after, k);
                lemma_place(after, j);
                if k == id {
                    lemma_place(after, at);
                } else {
                    assert(before[j].id == k);
                    lemma_place(before, j);
                }
            }
            assert(final(self)@ =~= old(self)@.insert(id, buf));
            assert(after =~= if has_id(before, id) {
                before.update(place(before, id), SoundEntry { id, buf, consumed: false })
            } else {
                before.push(SoundEntry { id, buf, consumed: false })
            });
        }
    }

    /// Stops the sound under `id`, if there is one.
    pub fn off(&mut self, id: u64)
        requires
            old(self).wf(),
        ensures
            final(self).wf(),
            final(self)@ == old(self)@.remove(id),
            final(self).entries() == if has_id(old(self).entries(), id) {
                old(self).entries().remove(place(old(self).entries(), id))
            } else {
                old(self).entries()
            },
            final(self).knobs() == old(self).knobs(),
    {
        let ghost before = self.sounds@;
        if let Some(i) = self.find(id) {
            self.sounds.remove(i);
            proof {
                let after = self.sounds@;
                assert forall|j: int| 0 <= j < after.len() implies after[j] == before[if j < i {
                    j
                } else {
                    j + 1
                }] by {}
                assert forall|k: u64| has_id(after, k) <==> (has_id(before, k) && k != id) by {
                    if has_id(after, k) {
                        let j = place(after, k);
                        let j0 = if j < i {
                            j
                        } else {
                            j + 1
                        };
                        assert(before[j0].id == k);
                    }
                    if has_id(before, k) && k != id {
                        let j0 = place(before, k);
                        let j = if j0 < i {
                            j0
                        } else {
                            j0 - 1
                        };
                        assert(after[j].id == k);
                    }
                }
                assert forall|k: u64| has_id(after, k) implies after[place(after, k)].buf
                    == before[place(before, k)].buf by {
                    let j = place(after, k);
                    let j0 = if j < i {
                        j
                    } else {
                        j + 1
                    };
                    assert(before[j0].id == k);
                    lemma_place(before, j0);
                }
            }
        }
        assert(final(self)@ =~= old(self)@.remove(id));
    }

    /// The stream that plays under `id`, to read frames from.
    pub fn stream_mut(&mut self, id: u64) -> (r: Option<&mut T>)
        requires
            old(self).wf(),
        ensures
            match r {
                Some(stream) => {
                    &&& old(self)@.contains_key(id)
                    &&& *stream == old(self)@[id]
                    &&& final(self)@ == old(self)@.insert(id, *final(stream))
                    &&& final(self).entries() == old(self).entries().update(
                        place(old(self).entries(), id),
                        SoundEntry { id, buf: *final(stream), consumed: false },
                    )
                    &&& final(self).wf()
                },
                None => !old(self)@.contains_key(id) && *final(self) == *old(self),
            },
            final(self).knobs() == old(self).knobs(),
    {
        match self.find(id) {
            Some(i) => {
                proof {
                    let before = self.sounds@;
                    assert forall|e: SoundEntry<T>| e.id == id && !e.consumed implies {
                        &&& streams(#[trigger] before.update(i as int, e)) == streams(
                            before,
                        ).insert(id, e.buf)
                        &&& sound(before.update(i as int, e))
                    } by {
                        lemma_replace(before, i as int, e);
                    }
                    lemma_place(before, i as int);
                }
                Some(&mut self.sounds[i].buf)
            },
            None => None,
        }
    }
}

impl<R: Copy, T> Sounds<R, T> {
    /// Marks every stream that `yields` says has ended.
    fn consume(&mut self, yields: &[(u64, usize)], len_frames: usize)
        requires
            old(self).wf(),
        ensures
            final(self).params == old(self).params,
            final(self).sounds@.len() == old(self).sounds@.len(),
            forall|i: int|
                0 <= i < old(self).sounds@.len() ==> (#[trigger] final(self).sounds@[i])
                    == (SoundEntry {
                    id: old(self).sounds@[i].id,
                    buf: old(self).sounds@[i].buf,
                    consumed: ended(yields@, len_frames, old(self).sounds@[i].id),
                }),
    {
        let ghost before = self.sounds@;
        let mut i: usize = 0;
        while i < self.sounds.len()
            invariant
                i <= self.sounds@.len(),
                self.sounds@.len() == before.len(),
                self.params == old(self).params,
                sound(before),
                forall|k: int|
                    0 <= k < i ==> (#[trigger] self.sounds@[k]) == (SoundEntry {
                        id: before[k].id,
                        buf: before[k].buf,
                        consumed: ended(yields@, len_frames, before[k].id),
                    }),
                forall|k: int| i <= k < before.len() ==> (#[trigger] self.sounds@[k]) == before[k],
            decreases self.sounds@.len() - i,
        {
            let id = self.sounds[i].id;
            let mut j: usize = 0;
            while j < yields.len()
                invariant
                    j <= yields@.len(),
                    i < self.sounds@.len(),
                    self.sounds@.len() == before.len(),
                    self.params == old(self).params,
                    forall|k: int|
                        0 <= k < before.len() && k != i ==> (#[trigger] self.sounds@[k]) == (
                        if k < i {
                            SoundEntry {
                                id: before[k].id,
                                buf: before[k].buf,
                                consumed: ended(yields@, len_frames, before[k].id),
                            }
                        } else {
                            before[k]
                        }),
                    self.sounds@[i as int] == (SoundEntry {
                        id,
                        buf: before[i as int].buf,
                        consumed: ended(yields@.take(j as int), len_frames, id),
                    }),
                    id == before[i as int].id,
                decreases yields@.len() - j,
            {
                proof {
                    lemma_ended_take(yields@, len_frames, id, j as int);
                }
                if yields[j].0 == id {
                    self.sounds[i].process(yields[j].1, len_frames);
                }
                j += 1;
            }
            assert(yields@.take(j as int) == yields@);
            i += 1;
        }
    }

    /// Takes note of one pass of the mixer over the bank. `yields` tells, for
    /// the streams that were read, how many frames each gave where
    /// `len_frames` were asked for. A stream that gave fewer has ended, and
    /// its sound leaves the bank; every other sound stays as it is.
    pub fn process(&mut self, yields: &[(u64, usize)], len_frames: usize)
        requires
            old(self).wf(),
        ensures
            final(self).wf(),
            final(self).entries() == old(self).entries().filter(goes_on(yields@, len_frames)),
            final(self)@ == old(self)@.remove_keys(Set::new(|id: u64| ended(yields@, len_frames, id))),
            final(self).knobs() == old(self).knobs(),
    {
        let ghost before = self.sounds@;
        let ghost keep = goes_on::<T>(yields@, len_frames);
        self.consume(yields, len_frames);
        let ghost marked = self.sounds@;
        let mut i: usize = 0;
        let ghost mut seen: int = 0;
        assert(before.take(0).filter(keep) =~= Seq::empty()) by {
            reveal(Seq::filter);
        }
        assert(self.sounds@ =~= before.take(0).filter(keep) + marked.skip(0));
        while i < self.sounds.len()
            invariant
                0 <= seen <= before.len(),
                marked.len() == before.len(),
                self.params == old(self).params,
                keep == goes_on::<T>(yields@, len_frames),
                forall|k: int|
                    0 <= k < before.len() ==> (#[trigger] marked[k]) == (SoundEntry {
                        id: before[k].id,
                        buf: before[k].buf,
                        consumed: ended(yields@, len_frames, before[k].id),
                    }),
                sound(before),
                i == before.take(seen).filter(keep).len(),
                self.sounds@ == before.take(seen).filter(keep) + marked.skip(seen),
            decreases before.len() - seen,
        {
            proof {
                crate::config::lemma_filter_take(before, keep, seen);
                assert(self.sounds@[i as int] == marked[seen]);
            }
            if self.sounds[i].consumed {
                self.sounds.remove(i);
                assert(self.sounds@ =~= before.take(seen + 1).filter(keep) + marked.skip(seen + 1));
            } else {
                assert(marked[seen] == before[seen]);
                assert(self.sounds@ =~= before.take(seen + 1).filter(keep) + marked.skip(seen + 1));
                i += 1;
            }
            proof {
                seen = seen + 1;
            }
        }
        proof {
            assert(seen == before.len()) by {
                if seen < before.len() {
                    assert(self.sounds@.len() == i + (before.len() - seen));
                }
            }
            assert(before.take(seen) == before);
            assert(self.sounds@ =~= before.filter(keep));
            lemma_filter_sound(before, yields@, len_frames);
        }
    }
}

/// One more report says that a stream has ended if it is a short report of
/// that stream, or if an earlier report said so.
pub proof fn lemma_ended_take(yields: Seq<(u64, usize)>, len_frames: usize, id: u64, j: int)
    requires
        0 <= j < yields.len(),
    ensures
        ended(yields.take(j + 1), len_frames, id) == (ended(yields.take(j), len_frames, id) || (
        yields[j].0 == id && yields[j].1 < len_frames)),
{
    let shorter = yields.take(j);
    let longer = yields.take(j + 1);
    if ended(longer, len_frames, id) {
        let w = choose|w: int|
            0 <= w < longer.len() && (#[trigger] longer[w]).0 == id && longer[w].1 < len_frames;
        if w < j {
            assert(shorter[w] == longer[w]);
        }
    }
    if ended(shorter, len_frames, id) {
        let w = choose|w: int|
            0 <= w < shorter.len() && (#[trigger] shorter[w]).0 == id && shorter[w].1 < len_frames;
        assert(longer[w] == shorter[w]);
    }
    if yields[j].0 == id && yields[j].1 < len_frames {
        assert(longer[j] == yields[j]);
    }
}

/// Leaving out the sounds whose streams have ended keeps a bank well formed,
/// and takes from its streams exactly those of the ids that have ended.
pub proof fn lemma_filter_sound<T>(
    entries: Seq<SoundEntry<T>>,
    yields: Seq<(u64, usize)>,
    len_frames: usize,
)
    requires
        sound(entries),
    ensures
        sound(entries.filter(goes_on(yields, len_frames))),
        streams(entries.filter(goes_on(yields, len_frames))) == streams(entries).remove_keys(
            Set::new(|id: u64| ended(yields, len_frames, id)),
        ),
    decreases entries.len(),
{
    reveal(Seq::filter);
    let keep = goes_on::<T>(yields, len_frames);
    let kept = entries.filter(keep);
    let gone = Set::new(|id: u64| ended(yields, len_frames, id));
    if entries.len() == 0 {
        assert(streams(kept) =~= streams(entries).remove_keys(gone));
    } else {
        let head = entries.drop_last();
        let last = entries.last();
        assert forall|j: int| 0 <= j < head.len() implies head[j] == entries[j] by {}
        lemma_filter_sound(head, yields, len_frames);
        let kept_head = head.filter(keep);
        assert forall|k: u64| #[trigger] has_id(head, k) implies k != last.id by {
            let j = place(head, k);
            assert(entries[j].id == k);
        }
        assert forall|k: u64| has_id(entries, k) <==> (has_id(head, k) || k == last.id) by {
            if has_id(entries, k) {
                let j = place(entries, k);
                if j < head.len() {
                    assert(head[j].id == k);
                }
            }
            if has_id(head, k) {
                let j = place(head, k);
                assert(entries[j].id == k);
            }
            assert(entries[entries.len() - 1].id == last.id);
        }
        assert forall|k: u64| has_id(head, k) implies streams(entries)[k] == streams(head)[k] by {
            let j = place(head, k);
            assert(entries[j].id == k);
            lemma_place(entries, j);
            lemma_place(head, j);
        }
        lemma_place(entries, entries.len() - 1);
        assert(streams(kept_head).dom() =~= streams(head).dom().difference(gone));
        assert forall|k: u64| #[trigger] has_id(kept_head, k) implies has_id(head, k)
            && !gone.contains(k) by {
            assert(streams(kept_head).dom().contains(k));
        }
        if keep(last) {
            assert(kept == kept_head.push(last));
            assert forall|i: int, j: int|
                0 <= i < kept.len() && 0 <= j < kept.len() && #[trigger] kept[i].id
                    == #[trigger] kept[j].id implies i == j by {
                assert(distinct_ids(kept_head));
                if i < kept_head.len() && j < kept_head.len() {
                    assert(kept_head[i].id == kept_head[j].id);
                    assert(i == j);
                } else if i < kept_head.len() {
                    assert(kept_head[i].id == last.id);
                    assert(has_id(kept_head, last.id));
                    assert(has_id(head, last.id));
                    assert(false);
                } else if j < kept_head.len() {
                    assert(kept_head[j].id == last.id);
                    assert(has_id(kept_head, last.id));
                    assert(has_id(head, last.id));
                    assert(false);
                }
            }
            assert forall|k: u64| has_id(kept, k) <==> (has_id(kept_head, k) || k == last.id) by {
                if has_id(kept, k) {
                    let j = place(kept, k);
                    if j < kept_head.len() {
                        assert(kept_head[j].id == k);
                    }
                }
                if has_id(kept_head, k) {
                    let j = place(kept_head, k);
                    assert(kept[j].id == k);
                }
                assert(kept[kept.len() - 1].id == last.id);
            }
            assert forall|k: u64| has_id(kept_head, k) implies streams(kept)[k] == streams(
                kept_head,
            )[k] by {
                let j = place(kept_head, k);
                assert(kept[j].id == k);
                lemma_place(kept, j);
                lemma_place(kept_head, j);
            }
            lemma_place(kept, kept.len() - 1);
            assert forall|k: u64| streams(kept).dom().contains(k) <==> streams(entries).remove_keys(
                gone,
            ).dom().contains(k) by {
                assert(streams(kept_head).dom().contains(k) == (streams(head).dom().contains(k)
                    && !gone.contains(k)));
            }
            assert(streams(kept) =~= streams(entries).remove_keys(gone));
        } else {
            assert(kept == kept_head);
            assert(gone.contains(last.id));
            assert forall|k: u64| streams(kept).dom().contains(k) <==> streams(entries).remove_keys(
                gone,
            ).dom().contains(k) by {
                assert(streams(kept_head).dom().contains(k) == (streams(head).dom().contains(k)
                    && !gone.contains(k)));
            }
            assert(streams(kept) =~= streams(entries).remove_keys(gone));
        }
    }
}

/// Putting an entry in the place of one with the same id changes the stream
/// of that id and nothing else.
pub proof fn lemma_replace<T>(before: Seq<SoundEntry<T>>, i: int, e: SoundEntry<T>)
    requires
        sound(before),
        0 <= i < before.len(),
        before[i].id == e.id,
        !e.consumed,
    ensures
        streams(before.update(i, e)) == streams(before).insert(e.id, e.buf),
        sound(before.update(i, e)),
{
    let after = before.update(i, e);
    assert forall|j: int| 0 <= j < before.len() implies after[j].id == before[j].id by {}
    assert forall|k: u64| has_id(after, k) <==> has_id(before, k) by {
        if has_id(after, k) {
            let j = place(after, k);
            assert(before[j].id == k);
        }
        if has_id(before, k) {
            let j = place(before, k);
            assert(after[j].id == k);
        }
    }
    assert forall|k: u64| has_id(after, k) implies after[place(after, k)].buf == (if k == e.id {
        e.buf
    } else {
        before[place(before, k)].buf
    }) by {
        let j = place(after, k);
        lemma_place(after, j);
        assert(before[j].id == k);
        lemma_place(before, j);
    }
    lemma_place(before, i);
    assert(streams(after) =~= streams(before).insert(e.id, e.buf));
}

/// Among entries with distinct ids, the position of an entry's id is the
/// entry's own index.
pub proof fn lemma_place<T>(entries: Seq<SoundEntry<T>>, i: int)
    requires
        distinct_ids(entries),
        0 <= i < entries.len(),
    ensures
        has_id(entries, entries[i].id),
        place(entries, entries[i].id) == i,
{
}

/// A sound whose stream holds exactly one buffer of frames is heard once and
/// then leaves: the pass in which its stream gives all `len_frames` frames
/// retires nothing, and the next pass, in which it gives none, retires this
/// sound and no other.
pub proof fn lemma_one_buffer_then_retired<T>(
    entries: Seq<SoundEntry<T>>,
    id: u64,
    len_frames: usize,
)
    requires
        sound(entries),
        len_frames > 0,
    ensures
        streams(entries.filter(goes_on(seq![(id, len_frames)], len_frames))) == streams(entries),
        streams(entries.filter(goes_on(seq![(id, 0usize)], len_frames))) == streams(
            entries,
        ).remove(id),
{
    let full = seq![(id, len_frames)];
    let none = seq![(id, 0usize)];
    lemma_filter_sound(entries, full, len_frames);
    lemma_filter_sound(entries, none, len_frames);
    assert(none[0] == (id, 0usize));
    assert(ended(none, len_frames, id));
    assert(streams(entries).remove_keys(Set::new(|k: u64| ended(full, len_frames, k)))
        =~= streams(entries));
    assert(streams(entries).remove_keys(Set::new(|k: u64| ended(none, len_frames, k)))
        =~= streams(entries).remove(id));
}

/// A sound that is started and stopped at once leaves the bank as it was
/// without its id: a bank that was empty is empty again.
pub proof fn lemma_on_then_off<T>(bank: Map<u64, T>, id: u64, stream: T)
    ensures
        bank.insert(id, stream).remove(id) == bank.remove(id),
        bank == Map::<u64, T>::empty() ==> bank.insert(id, stream).remove(id) == Map::<
            u64,
            T,
        >::empty(),
{
    assert(bank.insert(id, stream).remove(id) =~= bank.remove(id));
    assert(Map::<u64, T>::empty().remove(id) =~= Map::<u64, T>::empty());
}

} // verus!
