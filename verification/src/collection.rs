//! The collection: the one mutable store of cards and media that the guard
//! protects.  Card ids are assigned strictly increasing, so the well-formed
//! state keeps them sorted and unique.  Mutating operations validate before
//! they touch anything, so a failed operation leaves the collection exactly
//! as it was: the all-or-nothing guarantee is part of each contract.

use vstd::prelude::*;
use vstd::string::StringSliceAdditionalSpecFns;
use crate::card::Card;
use crate::err::AnkiError;

verus! {

/// One stored media file.
pub struct MediaEntry {
    pub name: Vec<u8>,
    pub data: Vec<u8>,
}

pub struct Collection {
    pub col_path: Vec<u8>,
    pub media_folder: Vec<u8>,
    pub media_db: Vec<u8>,
    pub server: bool,
    /// Set while a media synchronisation is in flight; closing is refused
    /// while it holds.
    pub media_sync_running: bool,
    pub cards: Vec<Card>,
    pub media_files: Vec<MediaEntry>,
    pub media_trash: Vec<MediaEntry>,
}

/// Card ids are positive and strictly increasing in storage order.
pub open spec fn cards_wf(cards: Seq<Card>) -> bool {
    &&& forall|i: int| 0 <= i < cards.len() ==> #[trigger] cards[i].id >= 1
    &&& forall|i: int, j: int|
        0 <= i < j < cards.len() ==> #[trigger] cards[i].id < #[trigger] cards[j].id
}

/// Media file names are unique within the folder.
pub open spec fn media_wf(files: Seq<MediaEntry>) -> bool {
    forall|i: int, j: int|
        0 <= i < j < files.len() ==> #[trigger] files[i].name@ != #[trigger] files[j].name@
}

pub open spec fn col_wf(c: &Collection) -> bool {
    cards_wf(c.cards@) && media_wf(c.media_files@)
}

/// The first card index with the given id.
pub open spec fn find_card_spec(cards: Seq<Card>, id: i64) -> Option<int> {
    if exists|i: int| 0 <= i < cards.len() && cards[i].id == id {
        Some(choose|i: int| 0 <= i < cards.len() && cards[i].id == id)
    } else {
        None
    }
}

/// The first media index with the given name.
pub open spec fn find_media_spec(files: Seq<MediaEntry>, name: Seq<u8>) -> Option<int> {
    if exists|i: int| 0 <= i < files.len() && files[i].name@ == name {
        Some(choose|i: int| 0 <= i < files.len() && files[i].name@ == name)
    } else {
        None
    }
}

/// Builds a collection over freshly opened storage.  Construction fails
/// with an io error when the collection path is empty, and then nothing is
/// installed.
pub fn open_collection(
    collection_path: Vec<u8>,
    media_folder_path: Vec<u8>,
    media_db_path: Vec<u8>,
    server: bool,
) -> (r: Result<Collection, AnkiError>)
    ensures
        collection_path@.len() == 0 ==> (r matches Err(e) && e matches AnkiError::IOError { info }
            && info@ == "missing collection path".spec_bytes()),
        collection_path@.len() > 0 ==> (r matches Ok(c) && c.col_path@ == collection_path@
            && c.media_folder@ == media_folder_path@ && c.media_db@ == media_db_path@ && c.server
            == server && !c.media_sync_running && c.cards@.len() == 0 && c.media_files@.len() == 0
            && c.media_trash@.len() == 0 && col_wf(&c)),
{
    if collection_path.len() == 0 {
        return Err(AnkiError::IOError { info: crate::text::lit_bytes("missing collection path") });
    }
    Ok(
        Collection {
            col_path: collection_path,
            media_folder: media_folder_path,
            media_db: media_db_path,
            server,
            media_sync_running: false,
            cards: Vec::new(),
            media_files: Vec::new(),
            media_trash: Vec::new(),
        },
    )
}

impl Collection {
    /// Whether the handle can be released; false while a media
    /// synchronisation still runs.
    pub fn can_close(&self) -> (r: bool)
        ensures
            r == !self.media_sync_running,
    {
        !self.media_sync_running
    }

    /// Marks a long media operation as in flight; refuses a second one.
    pub fn set_media_sync_running(&mut self) -> (r: Result<(), AnkiError>)
        ensures
            old(self).media_sync_running ==> (r matches Err(e) && e
                matches AnkiError::InvalidInput { info } && info@
                == "media sync already in flight".spec_bytes()) && *final(self) == *old(self),
            !old(self).media_sync_running ==> r is Ok && *final(self) == (Collection { media_sync_running: true, ..*old(self) }),
    {
        if self.media_sync_running {
            return Err(AnkiError::invalid_input("media sync already in flight"));
        }
        self.media_sync_running = true;
        Ok(())
    }

    /// Clears the in-flight mark; runs on every exit path of the long
    /// operation.
    pub fn set_media_sync_finished(&mut self)
        ensures
            *final(self) == (Collection { media_sync_running: false, ..*old(self) }),
    {
        self.media_sync_running = false;
    }

    /// The index holding the card with this id, if any.
    pub fn find_card(&self, id: i64) -> (r: Option<usize>)
        ensures
            match r {
                Some(i) => i < self.cards@.len() && self.cards@[i as int].id == id,
                None => forall|i: int| 0 <= i < self.cards@.len() ==> #[trigger] self.cards@[i].id != id,
            },
    {
        let mut i: usize = 0;
        while i < self.cards.len()
            invariant
                i <= self.cards@.len(),
                forall|j: int| 0 <= j < i ==> #[trigger] self.cards@[j].id != id,
            decreases self.cards@.len() - i,
        {
            if self.cards[i].id == id {
                return Some(i);
            }
            i = i + 1;
        }
        None
    }

    /// Stores a new card under a fresh positive id and returns that id.
    /// Nothing changes if the id space is exhausted.
    pub fn add_card(&mut self, card: Card) -> (r: Result<i64, AnkiError>)
        requires
            col_wf(old(self)),
        ensures
            col_wf(final(self)),
            r is Err <==> old(self).cards@.len() > 0 && old(self).cards@.last().id == i64::MAX,
            match r {
                Ok(id) => {
                    &&& id >= 1
                    &&& id == (if old(self).cards@.len() == 0 {
                        1int
                    } else {
                        old(self).cards@.last().id + 1
                    })
                    &&& final(self).cards@ == old(self).cards@.push((Card { id, ..card }))
                    &&& (forall|i: int|
                        0 <= i < old(self).cards@.len() ==> #[trigger] old(self).cards@[i].id < id)
                    &&& *final(self) == (Collection { cards: final(self).cards, ..*old(self) })
                },
                Err(e) => *final(self) == *old(self) && (e matches AnkiError::DBError { info }
                    && info@ == "card id space exhausted".spec_bytes()),
            },
    {
        let new_id: i64 = if self.cards.len() == 0 {
            1
        } else {
            let last = self.cards[self.cards.len() - 1].id;
            if last == i64::MAX {
                return Err(AnkiError::DBError { info: crate::text::lit_bytes("card id space exhausted") });
            }
            last + 1
        };
        proof {
            assert(forall|i: int|
                0 <= i < self.cards@.len() ==> #[trigger] self.cards@[i].id < new_id);
        }
        self.cards.push(Card { id: new_id, ..card });
        proof {
            assert(cards_wf(self.cards@));
        }
        Ok(new_id)
    }

    /// Replaces the stored card with the same id; fails as a storage error
    /// when no such card exists, changing nothing.
    pub fn update_card(&mut self, card: Card) -> (r: Result<(), AnkiError>)
        requires
            col_wf(old(self)),
        ensures
            col_wf(final(self)),
            match r {
                Ok(_) => exists|i: int|
                    {
                        &&& 0 <= i < old(self).cards@.len()
                        &&& old(self).cards@[i].id == card.id
                        &&& final(self).cards@ == old(self).cards@.update(i, card)
                        &&& *final(self) == (Collection { cards: final(self).cards, ..*old(self) })
                    },
                Err(e) => {
                    &&& *final(self) == *old(self)
                    &&& (forall|i: int|
                        0 <= i < old(self).cards@.len() ==> #[trigger] old(self).cards@[i].id
                            != card.id)
                    &&& e matches AnkiError::DBError { info } && info@
                        == "card not found".spec_bytes()
                },
            },
    {
        let idx = match self.find_card(card.id) {
            Some(i) => i,
            None => {
                return Err(AnkiError::DBError { info: crate::text::lit_bytes("card not found") });
            },
        };
        self.cards[idx] = card;
        proof {
            assert(cards_wf(self.cards@)) by {
                assert(forall|i: int|
                    0 <= i < old(self).cards@.len() && i != idx ==> self.cards@[i]
                        == old(self).cards@[i]);
            }
        }
        Ok(())
    }

    /// The index of a stored media file by name.
    pub fn find_media(&self, name: &Vec<u8>) -> (r: Option<usize>)
        ensures
            match r {
                Some(i) => i < self.media_files@.len() && self.media_files@[i as int].name@
                    == name@,
                None => forall|i: int|
                    0 <= i < self.media_files@.len() ==> #[trigger] self.media_files@[i].name@
                        != name@,
            },
    {
        let mut i: usize = 0;
        while i < self.media_files.len()
            invariant
                i <= self.media_files@.len(),
                forall|j: int| 0 <= j < i ==> #[trigger] self.media_files@[j].name@ != name@,
            decreases self.media_files@.len() - i,
        {
            if crate::text::bytes_eq(&self.media_files[i].name, name) {
                return Some(i);
            }
            i = i + 1;
        }
        None
    }

    /// Stores a media file under the desired name, replacing a file of that
    /// name if one exists, and returns the name actually used.
    pub fn add_media_file(&mut self, desired_name: Vec<u8>, data: Vec<u8>) -> (r: Result<
        Vec<u8>,
        AnkiError,
    >)
        requires
            col_wf(old(self)),
        ensures
            col_wf(final(self)),
            match r {
                Ok(name) => {
                    &&& name@ == desired_name@
                    &&& desired_name@.len() > 0
                    &&& match find_media_spec(old(self).media_files@, desired_name@) {
                        Some(i) => final(self).media_files@ == old(self).media_files@.update(
                            i,
                            (MediaEntry { name: desired_name, data }),
                        ),
                        None => final(self).media_files@ == old(self).media_files@.push(
                            (MediaEntry { name: desired_name, data }),
                        ),
                    }
                    &&& *final(self) == (Collection {
                        media_files: final(self).media_files,
                        ..*old(self)
                    })
                },
                Err(e) => {
                    &&& *final(self) == *old(self)
                    &&& desired_name@.len() == 0
                    &&& e matches AnkiError::InvalidInput { info } && info@
                        == "empty media file name".spec_bytes()
                },
            },
    {
        if desired_name.len() == 0 {
            return Err(AnkiError::invalid_input("empty media file name"));
        }
        let name_out = crate::card::copy_bytes(&desired_name);
        match self.find_media(&desired_name) {
            Some(i) => {
                proof {
                    assert(find_media_spec(self.media_files@, desired_name@) matches Some(j)
                        && self.media_files@[j].name@ == desired_name@);
                }
                let ghost j = find_media_spec(self.media_files@, desired_name@)->Some_0;
                proof {
                    assert(self.media_files@[i as int].name@ == desired_name@);
                    if i as int != j {
                        assert(self.media_files@[j].name@ == desired_name@);
                        assert(false);
                    }
                }
                self.media_files[i] = MediaEntry { name: desired_name, data };
                proof {
                    assert(media_wf(self.media_files@)) by {
                        assert(forall|k: int|
                            0 <= k < old(self).media_files@.len() && k != i ==> self.media_files@[k]
                                == old(self).media_files@[k]);
                        assert(self.media_files@[i as int].name@
                            == old(self).media_files@[i as int].name@);
                    }
                }
                Ok(name_out)
            },
            None => {
                proof {
                    assert(find_media_spec(self.media_files@, desired_name@) is None);
                }
                self.media_files.push(MediaEntry { name: desired_name, data });
                proof {
                    assert(media_wf(self.media_files@));
                }
                Ok(name_out)
            },
        }
    }
}


/// One step of moving a named file to the trash: a no-op when the name is
/// unknown.
pub open spec fn trash_step(files: Seq<MediaEntry>, trash: Seq<MediaEntry>, name: Seq<u8>) -> (
    Seq<MediaEntry>,
    Seq<MediaEntry>,
) {
    match find_media_spec(files, name) {
        Some(i) => (files.remove(i), trash.push(files[i])),
        None => (files, trash),
    }
}

/// Moves each named file to the trash, in order.
pub open spec fn trash_all(
    files: Seq<MediaEntry>,
    trash: Seq<MediaEntry>,
    names: Seq<Vec<u8>>,
    i: int,
) -> (Seq<MediaEntry>, Seq<MediaEntry>)
    decreases names.len() - i,
{
    if i < 0 || i >= names.len() {
        (files, trash)
    } else {
        let st = trash_step(files, trash, names[i]@);
        trash_all(st.0, st.1, names, i + 1)
    }
}

/// Restores trashed files whose names are free again; colliding names stay
/// in the trash.
pub open spec fn restore_all(files: Seq<MediaEntry>, trash: Seq<MediaEntry>) -> (
    Seq<MediaEntry>,
    Seq<MediaEntry>,
)
    decreases trash.len(),
{
    if trash.len() == 0 {
        (files, Seq::empty())
    } else if find_media_spec(files, trash[0].name@) is None {
        restore_all(files.push(trash[0]), trash.drop_first())
    } else {
        let r = restore_all(files, trash.drop_first());
        (r.0, seq![trash[0]] + r.1)
    }
}

impl Collection {
    /// Moves the named files to the trash, in order; unknown names are
    /// skipped.
    pub fn remove_media_files(&mut self, fnames: &Vec<Vec<u8>>)
        requires
            col_wf(old(self)),
        ensures
            col_wf(final(self)),
            (final(self).media_files@, final(self).media_trash@) == trash_all(
                old(self).media_files@,
                old(self).media_trash@,
                fnames@,
                0,
            ),
            *final(self) == (Collection {
                media_files: final(self).media_files,
                media_trash: final(self).media_trash,
                ..*old(self)
            }),
    {
        let mut i: usize = 0;
        while i < fnames.len()
            invariant
                i <= fnames@.len(),
                col_wf(self),
                trash_all(self.media_files@, self.media_trash@, fnames@, i as int) == trash_all(
                    old(self).media_files@,
                    old(self).media_trash@,
                    fnames@,
                    0,
                ),
                *self == (Collection {
                    media_files: self.media_files,
                    media_trash: self.media_trash,
                    ..*old(self)
                }),
            decreases fnames@.len() - i,
        {
            let ghost f0 = self.media_files@;
            let ghost t0 = self.media_trash@;
            match self.find_media(&fnames[i]) {
                Some(idx) => {
                    proof {
                        let j = find_media_spec(f0, fnames@[i as int]@)->Some_0;
                        assert(f0[j].name@ == fnames@[i as int]@);
                        if j != idx as int {
                            assert(false);
                        }
                    }
                    let ent = self.media_files.remove(idx);
                    self.media_trash.push(ent);
                    proof {
                        assert(media_wf(self.media_files@)) by {
                            assert(forall|a: int|
                                0 <= a < self.media_files@.len() ==> #[trigger] self.media_files@[a]
                                    == if a < idx as int {
                                    f0[a]
                                } else {
                                    f0[a + 1]
                                });
                        }
                        assert((self.media_files@, self.media_trash@) == trash_step(
                            f0,
                            t0,
                            fnames@[i as int]@,
                        ));
                    }
                },
                None => {
                    proof {
                        assert(find_media_spec(f0, fnames@[i as int]@) is None) by {
                            if find_media_spec(f0, fnames@[i as int]@) is Some {
                                let j = find_media_spec(f0, fnames@[i as int]@)->Some_0;
                                assert(f0[j].name@ == fnames@[i as int]@);
                                assert(self.media_files@[j].name@ != fnames@[i as int]@);
                            }
                        }
                        assert((self.media_files@, self.media_trash@) == trash_step(
                            f0,
                            t0,
                            fnames@[i as int]@,
                        ));
                    }
                },
            }
            i = i + 1;
        }
    }

    /// Discards everything in the trash.
    pub fn empty_trash_files(&mut self)
        ensures
            *final(self) == (Collection { media_trash: final(self).media_trash, ..*old(self) }),
            final(self).media_trash@.len() == 0,
    {
        self.media_trash = Vec::new();
    }

    /// Moves trashed files back into the folder where their names are
    /// free; the rest stay in the trash, in order.
    pub fn restore_trash_files(&mut self)
        requires
            col_wf(old(self)),
        ensures
            col_wf(final(self)),
            (final(self).media_files@, final(self).media_trash@) == restore_all(
                old(self).media_files@,
                old(self).media_trash@,
            ),
            *final(self) == (Collection {
                media_files: final(self).media_files,
                media_trash: final(self).media_trash,
                ..*old(self)
            }),
    {
        let mut kept: Vec<MediaEntry> = Vec::new();
        let ghost t_all = self.media_trash@;
        while self.media_trash.len() > 0
            invariant
                col_wf(self),
                *self == (Collection {
                    media_files: self.media_files,
                    media_trash: self.media_trash,
                    ..*old(self)
                }),
                restore_all(old(self).media_files@, old(self).media_trash@) == ((
                restore_all(self.media_files@, self.media_trash@).0,
                kept@ + restore_all(self.media_files@, self.media_trash@).1,
                )),
            decreases self.media_trash@.len(),
        {
            let ghost f0 = self.media_files@;
            let ghost t0 = self.media_trash@;
            let ent = self.media_trash.remove(0);
            proof {
                assert(self.media_trash@ =~= t0.drop_first());
            }
            let free = match self.find_media(&ent.name) {
                Some(_) => false,
                None => true,
            };
            proof {
                if free {
                    assert(find_media_spec(f0, t0[0].name@) is None) by {
                        if find_media_spec(f0, t0[0].name@) is Some {
                            let j = find_media_spec(f0, t0[0].name@)->Some_0;
                            assert(f0[j].name@ == t0[0].name@);
                            assert(self.media_files@[j].name@ != ent.name@);
                        }
                    }
                } else {
                    assert(find_media_spec(f0, t0[0].name@) is Some) by {
                        assert(exists|j: int|
                            0 <= j < f0.len() && f0[j].name@ == t0[0].name@);
                    }
                }
            }
            if free {
                self.media_files.push(ent);
                proof {
                    assert(media_wf(self.media_files@)) by {
                        assert(forall|a: int|
                            0 <= a < f0.len() ==> #[trigger] self.media_files@[a] == f0[a]);
                        assert(self.media_files@[f0.len() as int] == t0[0]);
                        assert(forall|j: int| 0 <= j < f0.len() ==> f0[j].name@ != t0[0].name@);
                    }
                    assert(self.media_files@ =~= f0.push(t0[0]));
                }
            } else {
                kept.push(ent);
                proof {
                    let r = restore_all(f0, t0.drop_first());
                    assert(restore_all(f0, t0) == (r.0, seq![t0[0]] + r.1));
                    let ghost k0 = kept@.drop_last();
                    assert(k0.push(t0[0]) =~= kept@);
                    assert(kept@ + r.1 =~= k0 + (seq![t0[0]] + r.1));
                }
            }
        }
        proof {
            assert(self.media_trash@.len() == 0);
            assert(restore_all(self.media_files@, self.media_trash@) == ((
            self.media_files@,
            Seq::<MediaEntry>::empty(),
            )));
        }
        self.media_trash = kept;
        proof {
            assert(kept@ + Seq::<MediaEntry>::empty() =~= kept@);
        }
    }
}

} // verus!
