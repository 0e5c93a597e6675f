//! The boundary component: decodes one request, resolves it to exactly one
//! operation, runs it against the guarded collection, and encodes exactly
//! one response.  Failures are translated, never thrown; a request other
//! than open-collection finds the collection closed and is answered with
//! the collection-not-open error.  Long media operations mark the handle
//! busy, run their cancellable work, and clear the mark on every exit
//! path.

use vstd::prelude::*;
use vstd::string::StringSliceAdditionalSpecFns;
use crate::card::{card_to_pb, pbcard_to_native};
use crate::collection::{col_wf, open_collection, Collection};
use crate::err::{anki_error_to_proto_error, translated, AnkiError};
use crate::i18n::{FString, I18n};
use crate::proto::{encode_output, encode_progress, BackendInput, BackendOutput, ExtractAvTagsOut, SortOrder,
    WireCard,
    ExtractLatexOut, GetCardOut, MediaCheckOut, MediaSyncProgressMsg, OpenCollectionIn,
    RenderCardOut, SearchCardsOut, SearchNotesOut, SchedTimingTodayOut, TemplateRequirement,
    TemplateRequirementsOut, TranslateArg, TranslateArgValue, WireProgress};
use crate::text::lit_bytes;
use crate::codec::{enc_byte_str, enc_u64};
use crate::wire::WireEnc;

verus! {

/// The host's progress sink: receives one encoded progress snapshot and
/// answers whether the operation should continue (`true`) or stop.
pub trait ProgressHandler: Sized {
    fn on_progress(&mut self, bytes: Vec<u8>) -> bool;
}

/// The absent callback: always continue.
pub struct NoProgress;

impl ProgressHandler for NoProgress {
    fn on_progress(&mut self, _bytes: Vec<u8>) -> bool {
        true
    }
}

/// An internal progress snapshot, translated and delivered at once.
pub enum Progress {
    MediaSync(MediaSyncProgress),
    MediaCheck(u32),
}

/// Counters of a media synchronisation in flight.
pub struct MediaSyncProgress {
    pub checked: u32,
    pub uploaded_files: u32,
    pub downloaded_files: u32,
    pub uploaded_deletions: u32,
    pub downloaded_deletions: u32,
}

pub struct Backend<P: ProgressHandler> {
    pub col: Option<Collection>,
    pub progress_callback: Option<P>,
    pub i18n: I18n,
    pub server: bool,
    /// Every progress snapshot pushed through the channel, in order of
    /// production; deliveries of one long operation appear as one
    /// contiguous run with strictly increasing counters.
    pub progress_log: Ghost<Seq<Progress>>,
}

/// The backend's invariant: whatever collection is installed is
/// well-formed.
pub open spec fn backend_wf<P: ProgressHandler>(b: &Backend<P>) -> bool {
    match b.col {
        Some(c) => col_wf(&c),
        None => true,
    }
}

/// Everything but the collection, the callback state and the progress
/// log is unchanged.
pub open spec fn frame<P: ProgressHandler>(pre: &Backend<P>, post: &Backend<P>) -> bool {
    pre.i18n == post.i18n && pre.server == post.server
}

/// Builds the engine from a decoded initialisation message.
pub fn init_backend<P: ProgressHandler>(init_msg: &[u8]) -> (r: Result<Backend<P>, Vec<u8>>)
    ensures
        match r {
            Ok(b) => b.col is None && b.progress_callback is None && backend_wf(&b) && (exists|
                v: crate::proto::BackendInit,
            |
                {
                    &&& #[trigger] v.enc() == init_msg@
                    &&& b.i18n.preferred_langs@ == v.preferred_langs@
                    &&& b.i18n.locale_folder_path@ == v.locale_folder_path@
                    &&& b.server == v.server
                }),
            Err(e) => e@ == "couldn't decode init request".spec_bytes() && (forall|
                v: crate::proto::BackendInit,
            | v.enc() != init_msg@),
        },
{
    let input = match crate::proto::decode_init(init_msg) {
        Some(i) => i,
        None => {
            return Err(lit_bytes("couldn't decode init request"));
        },
    };
    let i18n = I18n::new(input.preferred_langs, input.locale_folder_path);
    Ok(Backend::new(i18n, input.server))
}

impl<P: ProgressHandler> Backend<P> {
    /// A fresh engine: no collection open, no callback installed.
    pub fn new(i18n: I18n, server: bool) -> (r: Backend<P>)
        ensures
            r.col is None && r.progress_callback is None && r.i18n == i18n && r.server == server
                && backend_wf(&r) && r.progress_log@.len() == 0,
    {
        Backend {
            col: None,
            progress_callback: None,
            i18n,
            server,
            progress_log: Ghost(Seq::empty()),
        }
    }

    /// The engine's catalog handle.
    pub fn i18n(&self) -> (r: &I18n)
        ensures
            r == &self.i18n,
    {
        &self.i18n
    }

    /// Installs or removes the host's progress sink.
    pub fn set_progress_callback(&mut self, progress_cb: Option<P>)
        ensures
            final(self).progress_callback == progress_cb,
            final(self).col == old(self).col,
            final(self).progress_log == old(self).progress_log,
            frame(old(self), final(self)),
    {
        self.progress_callback = progress_cb;
    }

    /// Translates a snapshot, encodes it with `progress_reply`, records it
    /// in the channel's log, and delivers it through the callback; with no
    /// callback installed the operation always continues.  Never touches
    /// the collection.
    fn fire_progress_callback(&mut self, progress: Progress) -> (r: bool)
        ensures
            final(self).col == old(self).col,
            frame(old(self), final(self)),
            final(self).progress_log@ == old(self).progress_log@.push(progress),
            old(self).progress_callback is None ==> r && final(self).progress_callback is None,
            old(self).progress_callback is Some <==> final(self).progress_callback is Some,
    {
        let ghost snapshot = progress;
        let bytes = progress_to_proto_bytes(progress, &self.i18n);
        self.progress_log = Ghost(self.progress_log@.push(snapshot));
        match &mut self.progress_callback {
            Some(cb) => cb.on_progress(bytes),
            None => true,
        }
    }

    /// Opens the collection; refuses a second open while one is
    /// installed, and installs nothing when construction fails.
    pub fn open_collection(&mut self, input: OpenCollectionIn) -> (r: Result<(), AnkiError>)
        requires
            backend_wf(old(self)),
        ensures
            backend_wf(final(self)),
            frame(old(self), final(self)),
            final(self).progress_callback == old(self).progress_callback,
            old(self).col is Some ==> r == Result::<(), AnkiError>::Err(
                AnkiError::CollectionAlreadyOpen,
            ) && final(self).col == old(self).col,
            old(self).col is None && input.collection_path@.len() == 0 ==> (r matches Err(e) && (
            e matches AnkiError::IOError { info } && info@
                == "missing collection path".spec_bytes())) && final(self).col is None,
            old(self).col is None && input.collection_path@.len() > 0 ==> r is Ok && (final(self).col matches Some(c) && c.col_path@ == input.collection_path@ && c.media_folder@
                == input.media_folder_path@ && c.media_db@ == input.media_db_path@ && c.server
                == old(self).server && !c.media_sync_running && c.cards@.len() == 0
                && c.media_files@.len() == 0 && c.media_trash@.len() == 0),
    {
        if self.col.is_some() {
            return Err(AnkiError::CollectionAlreadyOpen);
        }
        let new_col = match open_collection(
            input.collection_path,
            input.media_folder_path,
            input.media_db_path,
            self.server,
        ) {
            Ok(c) => c,
            Err(e) => {
                return Err(e);
            },
        };
        self.col = Some(new_col);
        Ok(())
    }

    /// Closes the collection; refuses while none is open or while a long
    /// operation makes release unsafe.
    pub fn close_collection(&mut self) -> (r: Result<(), AnkiError>)
        requires
            backend_wf(old(self)),
        ensures
            backend_wf(final(self)),
            frame(old(self), final(self)),
            final(self).progress_callback == old(self).progress_callback,
            old(self).col is None ==> r == Result::<(), AnkiError>::Err(
                AnkiError::CollectionNotOpen,
            ) && final(self).col is None,
            (old(self).col matches Some(c) && c.media_sync_running) ==> (r matches Err(e) && (
            e matches AnkiError::InvalidInput { info } && info@ == "can't close yet".spec_bytes()))
                && final(self).col == old(self).col,
            (old(self).col matches Some(c) && !c.media_sync_running) ==> r is Ok && final(self).col is None,
    {
        match &self.col {
            None => Err(AnkiError::CollectionNotOpen),
            Some(c) => {
                if !c.can_close() {
                    return Err(AnkiError::invalid_input("can't close yet"));
                }
                self.col = None;
                Ok(())
            },
        }
    }

    /// The long media operation: marks the handle busy, extracts what it
    /// needs, releases the handle conceptually while the cancellable work
    /// runs, and clears the busy mark on every exit path.  The collection's
    /// stored state is never changed; with no callback installed the
    /// operation always completes.
    pub fn sync_media(&mut self, _input: crate::proto::SyncMediaIn) -> (r: Result<(), AnkiError>)
        requires
            backend_wf(old(self)),
        ensures
            backend_wf(final(self)),
            frame(old(self), final(self)),
            old(self).col is None ==> r == Result::<(), AnkiError>::Err(
                AnkiError::CollectionNotOpen,
            ) && final(self).col is None,
            (old(self).col matches Some(c) && c.media_sync_running) ==> (r matches Err(e) && (
            e matches AnkiError::InvalidInput { info } && info@
                == "media sync already in flight".spec_bytes())) && final(self).col == old(self).col,
            (old(self).col matches Some(c) && !c.media_sync_running) ==> final(self).col == old(self).col && (r is Ok || r == Result::<(), AnkiError>::Err(AnkiError::Interrupted)),
            (old(self).col matches Some(c) && !c.media_sync_running && old(self).progress_callback is None) ==> r is Ok,
            old(self).col is None ==> final(self).progress_log == old(self).progress_log,
            (old(self).col matches Some(c) && c.media_sync_running) ==> final(self).progress_log
                == old(self).progress_log,
            (old(self).col is Some && !old(self).col->Some_0.media_sync_running) ==> exists|
                k: int,
            |
                {
                    &&& 1 <= k <= old(self).col->Some_0.media_files@.len() + 1
                    &&& final(self).progress_log@ == old(self).progress_log@
                        + #[trigger] sync_snapshots(k as nat)
                    &&& (r is Ok ==> k == old(self).col->Some_0.media_files@.len() + 1)
                },
    {
        match &mut self.col {
            None => {
                return Err(AnkiError::CollectionNotOpen);
            },
            Some(c) => {
                match c.set_media_sync_running() {
                    Ok(_) => {
                    },
                    Err(e) => {
                        return Err(e);
                    },
                }
            },
        }
        // extract by value what the long operation needs; the handle is
        // then conceptually released while it runs
        let n_files: usize = match &self.col {
            None => 0,
            Some(c) => c.media_files.len(),
        };
        let mut cancelled = false;
        let mut i: usize = 0;
        proof {
            assert(sync_snapshots(0) =~= Seq::<Progress>::empty());
            assert(self.progress_log@ + sync_snapshots(0) =~= self.progress_log@);
        }
        while i < n_files
            invariant_except_break
                !cancelled,
                self.progress_log@ == old(self).progress_log@ + sync_snapshots(i as nat),
            invariant
                i <= n_files,
                backend_wf(self),
                old(self).col matches Some(c0) && !c0.media_sync_running && self.col == Some(
                    (Collection { media_sync_running: true, ..c0 }),
                ),
                old(self).progress_callback is None ==> !cancelled
                    && self.progress_callback is None,
                frame(old(self), self),
            ensures
                i <= n_files,
                backend_wf(self),
                old(self).col matches Some(c0) && !c0.media_sync_running && self.col == Some(
                    (Collection { media_sync_running: true, ..c0 }),
                ),
                old(self).progress_callback is None ==> !cancelled
                    && self.progress_callback is None,
                frame(old(self), self),
                !cancelled ==> i == n_files && self.progress_log@ == old(self).progress_log@
                    + sync_snapshots(n_files as nat),
                cancelled ==> self.progress_log@ == old(self).progress_log@ + sync_snapshots(
                    (i + 1) as nat,
                ) && i < n_files,
            decreases n_files - i,
        {
            let keep_going = self.fire_progress_callback(
                Progress::MediaSync(
                    MediaSyncProgress {
                        checked: if i < u32::MAX as usize {
                            i as u32
                        } else {
                            u32::MAX
                        },
                        uploaded_files: 0,
                        downloaded_files: 0,
                        uploaded_deletions: 0,
                        downloaded_deletions: 0,
                    },
                ),
            );
            proof {
                assert(sync_snapshots((i + 1) as nat) =~= sync_snapshots(i as nat).push(
                    Progress::MediaSync(
                        MediaSyncProgress {
                            checked: step_counter(i as int),
                            uploaded_files: 0,
                            downloaded_files: 0,
                            uploaded_deletions: 0,
                            downloaded_deletions: 0,
                        },
                    ),
                ));
            }
            if !keep_going {
                cancelled = true;
                break ;
            }
            i = i + 1;
        }
        if !cancelled {
            let keep_going = self.fire_progress_callback(
                Progress::MediaSync(
                    MediaSyncProgress {
                        checked: if n_files < u32::MAX as usize {
                            n_files as u32
                        } else {
                            u32::MAX
                        },
                        uploaded_files: 0,
                        downloaded_files: 0,
                        uploaded_deletions: 0,
                        downloaded_deletions: 0,
                    },
                ),
            );
            if !keep_going {
                cancelled = true;
            }
            proof {
                assert(sync_snapshots((n_files + 1) as nat) =~= sync_snapshots(
                    n_files as nat,
                ).push(
                    Progress::MediaSync(
                        MediaSyncProgress {
                            checked: step_counter(n_files as int),
                            uploaded_files: 0,
                            downloaded_files: 0,
                            uploaded_deletions: 0,
                            downloaded_deletions: 0,
                        },
                    ),
                ));
            }
        }
        // reacquire solely to clear the busy mark, whatever happened
        match &mut self.col {
            None => {
                return Err(AnkiError::CollectionNotOpen);
            },
            Some(c) => {
                c.set_media_sync_finished();
            },
        }
        if cancelled {
            Err(AnkiError::Interrupted)
        } else {
            Ok(())
        }
    }

    /// Walks the media folder firing cancellable progress, then reports;
    /// the collection is read, never changed, so a cancelled check has no
    /// effect.
    pub fn check_media(&mut self) -> (r: Result<MediaCheckOut, AnkiError>)
        requires
            backend_wf(old(self)),
        ensures
            backend_wf(final(self)),
            frame(old(self), final(self)),
            final(self).col == old(self).col,
            old(self).col is None ==> r == Result::<MediaCheckOut, AnkiError>::Err(
                AnkiError::CollectionNotOpen,
            ),
            old(self).col matches Some(c) ==> match r {
                Ok(out) => {
                    &&& out.unused@.len() == 0
                    &&& out.missing@.len() == 0
                    &&& out.report@ == "checked ".spec_bytes() + crate::text::dec_int(
                        if c.media_files@.len() <= i64::MAX {
                            c.media_files@.len() as int
                        } else {
                            i64::MAX as int
                        },
                    )
                    &&& out.have_trash == (c.media_trash@.len() > 0)
                },
                Err(e) => e == AnkiError::Interrupted,
            },
            (old(self).col is Some && old(self).progress_callback is None) ==> r is Ok,
            old(self).col is None ==> final(self).progress_log == old(self).progress_log,
            old(self).col is Some ==> exists|k: int|
                {
                    &&& 0 <= k <= old(self).col->Some_0.media_files@.len()
                    &&& final(self).progress_log@ == old(self).progress_log@
                        + #[trigger] check_snapshots(k as nat)
                    &&& (r is Ok ==> k == old(self).col->Some_0.media_files@.len())
                },
    {
        let n_files: usize = match &self.col {
            None => {
                return Err(AnkiError::CollectionNotOpen);
            },
            Some(c) => c.media_files.len(),
        };
        let have_trash: bool = match &self.col {
            None => false,
            Some(c) => c.media_trash.len() > 0,
        };
        let mut i: usize = 0;
        proof {
            assert(check_snapshots(0) =~= Seq::<Progress>::empty());
            assert(self.progress_log@ + check_snapshots(0) =~= self.progress_log@);
        }
        while i < n_files
            invariant
                i <= n_files,
                n_files == old(self).col->Some_0.media_files@.len(),
                backend_wf(self),
                old(self).col is Some,
                self.col == old(self).col,
                old(self).progress_callback is None ==> self.progress_callback is None,
                frame(old(self), self),
                self.progress_log@ == old(self).progress_log@ + check_snapshots(i as nat),
            decreases n_files - i,
        {
            let keep_going = self.fire_progress_callback(
                Progress::MediaCheck(
                    if i < u32::MAX as usize {
                        i as u32
                    } else {
                        u32::MAX
                    },
                ),
            );
            proof {
                assert(check_snapshots((i + 1) as nat) =~= check_snapshots(i as nat).push(
                    Progress::MediaCheck(step_counter(i as int)),
                ));
            }
            if !keep_going {
                proof {
                    let kk: int = i as int + 1;
                    assert(self.progress_log@ == old(self).progress_log@ + check_snapshots(
                        kk as nat,
                    ));
                }
                return Err(AnkiError::Interrupted);
            }
            i = i + 1;
        }
        proof {
            let kk: int = n_files as int;
            assert(self.progress_log@ == old(self).progress_log@ + check_snapshots(kk as nat));
        }
        let mut args: Vec<TranslateArg> = Vec::new();
        let count: i64 = if (n_files as u64) <= (i64::MAX as u64) {
            n_files as i64
        } else {
            i64::MAX
        };
        args.push(
            TranslateArg { name: lit_bytes("count"), value: TranslateArgValue::Int(count) },
        );
        let report = self.i18n.trn(&FString::MediaCheckChecked, &args);
        proof {
            assert(args@.len() == 1);
            assert(args@[0].name@ == "count".spec_bytes());
            assert(crate::i18n::lookup_arg(args@, "count".spec_bytes()) == crate::i18n::arg_bytes(
                &args@[0].value,
            ));
        }
        Ok(MediaCheckOut { unused: Vec::new(), missing: Vec::new(), report, have_trash })
    }

    /// Empties the media trash after a cancellable walk; cancellation
    /// leaves the trash untouched.
    pub fn empty_trash(&mut self) -> (r: Result<(), AnkiError>)
        requires
            backend_wf(old(self)),
        ensures
            backend_wf(final(self)),
            frame(old(self), final(self)),
            old(self).col is None ==> r == Result::<(), AnkiError>::Err(
                AnkiError::CollectionNotOpen,
            ) && final(self).col is None,
            old(self).col matches Some(c) ==> match r {
                Ok(_) => final(self).col matches Some(c2) && c2 == (Collection {
                    media_trash: c2.media_trash,
                    ..c
                }) && c2.media_trash@.len() == 0,
                Err(e) => e == AnkiError::Interrupted && final(self).col == old(self).col,
            },
            (old(self).col is Some && old(self).progress_callback is None) ==> r is Ok,
            old(self).col is None ==> final(self).progress_log == old(self).progress_log,
            old(self).col is Some ==> exists|k: int|
                {
                    &&& 0 <= k <= old(self).col->Some_0.media_trash@.len()
                    &&& final(self).progress_log@ == old(self).progress_log@
                        + #[trigger] check_snapshots(k as nat)
                    &&& (r is Ok ==> k == old(self).col->Some_0.media_trash@.len())
                },
    {
        let n: usize = match &self.col {
            None => {
                return Err(AnkiError::CollectionNotOpen);
            },
            Some(c) => c.media_trash.len(),
        };
        let mut i: usize = 0;
        proof {
            assert(check_snapshots(0) =~= Seq::<Progress>::empty());
            assert(self.progress_log@ + check_snapshots(0) =~= self.progress_log@);
        }
        while i < n
            invariant
                i <= n,
                n == old(self).col->Some_0.media_trash@.len(),
                backend_wf(self),
                old(self).col is Some,
                self.col == old(self).col,
                old(self).progress_callback is None ==> self.progress_callback is None,
                frame(old(self), self),
                self.progress_log@ == old(self).progress_log@ + check_snapshots(i as nat),
            decreases n - i,
        {
            let keep_going = self.fire_progress_callback(
                Progress::MediaCheck(
                    if i < u32::MAX as usize {
                        i as u32
                    } else {
                        u32::MAX
                    },
                ),
            );
            proof {
                assert(check_snapshots((i + 1) as nat) =~= check_snapshots(i as nat).push(
                    Progress::MediaCheck(step_counter(i as int)),
                ));
            }
            if !keep_going {
                proof {
                    let kk: int = i as int + 1;
                    assert(self.progress_log@ == old(self).progress_log@ + check_snapshots(
                        kk as nat,
                    ));
                }
                return Err(AnkiError::Interrupted);
            }
            i = i + 1;
        }
        proof {
            let kk: int = n as int;
            assert(self.progress_log@ == old(self).progress_log@ + check_snapshots(kk as nat));
        }
        match &mut self.col {
            None => Err(AnkiError::CollectionNotOpen),
            Some(c) => {
                c.empty_trash_files();
                Ok(())
            },
        }
    }

    /// Restores trashed media after a cancellable walk; cancellation
    /// changes nothing.
    pub fn restore_trash(&mut self) -> (r: Result<(), AnkiError>)
        requires
            backend_wf(old(self)),
        ensures
            backend_wf(final(self)),
            frame(old(self), final(self)),
            old(self).col is None ==> r == Result::<(), AnkiError>::Err(
                AnkiError::CollectionNotOpen,
            ) && final(self).col is None,
            old(self).col matches Some(c) ==> match r {
                Ok(_) => final(self).col matches Some(c2) && c2 == (Collection {
                    media_files: c2.media_files,
                    media_trash: c2.media_trash,
                    ..c
                }) && (c2.media_files@, c2.media_trash@) == crate::collection::restore_all(
                    c.media_files@,
                    c.media_trash@,
                ),
                Err(e) => e == AnkiError::Interrupted && final(self).col == old(self).col,
            },
            (old(self).col is Some && old(self).progress_callback is None) ==> r is Ok,
            old(self).col is None ==> final(self).progress_log == old(self).progress_log,
            old(self).col is Some ==> exists|k: int|
                {
                    &&& 0 <= k <= old(self).col->Some_0.media_trash@.len()
                    &&& final(self).progress_log@ == old(self).progress_log@
                        + #[trigger] check_snapshots(k as nat)
                    &&& (r is Ok ==> k == old(self).col->Some_0.media_trash@.len())
                },
    {
        let n: usize = match &self.col {
            None => {
                return Err(AnkiError::CollectionNotOpen);
            },
            Some(c) => c.media_trash.len(),
        };
        let mut i: usize = 0;
        proof {
            assert(check_snapshots(0) =~= Seq::<Progress>::empty());
            assert(self.progress_log@ + check_snapshots(0) =~= self.progress_log@);
        }
        while i < n
            invariant
                i <= n,
                n == old(self).col->Some_0.media_trash@.len(),
                backend_wf(self),
                old(self).col is Some,
                self.col == old(self).col,
                old(self).progress_callback is None ==> self.progress_callback is None,
                frame(old(self), self),
                self.progress_log@ == old(self).progress_log@ + check_snapshots(i as nat),
            decreases n - i,
        {
            let keep_going = self.fire_progress_callback(
                Progress::MediaCheck(
                    if i < u32::MAX as usize {
                        i as u32
                    } else {
                        u32::MAX
                    },
                ),
            );
            proof {
                assert(check_snapshots((i + 1) as nat) =~= check_snapshots(i as nat).push(
                    Progress::MediaCheck(step_counter(i as int)),
                ));
            }
            if !keep_going {
                proof {
                    let kk: int = i as int + 1;
                    assert(self.progress_log@ == old(self).progress_log@ + check_snapshots(
                        kk as nat,
                    ));
                }
                return Err(AnkiError::Interrupted);
            }
            i = i + 1;
        }
        proof {
            let kk: int = n as int;
            assert(self.progress_log@ == old(self).progress_log@ + check_snapshots(kk as nat));
        }
        match &mut self.col {
            None => Err(AnkiError::CollectionNotOpen),
            Some(c) => {
                c.restore_trash_files();
                Ok(())
            },
        }
    }

    /// Runs a raw storage command; the SQL proxying itself sits with the
    /// storage collaborator, so an open collection answers with an empty
    /// result set.
    pub fn db_command(&self, _input: &[u8]) -> (r: Result<String, AnkiError>)
        ensures
            self.col is None <==> r == Result::<String, AnkiError>::Err(
                AnkiError::CollectionNotOpen,
            ),
            self.col is Some ==> (r matches Ok(s) && s@ == "[]"@),
    {
        match &self.col {
            None => Err(AnkiError::CollectionNotOpen),
            Some(_) => Ok("[]".to_owned()),
        }
    }
}

/// The localized count line of a media check walk.
pub open spec fn check_line(n: u32) -> Seq<u8> {
    "checked ".spec_bytes() + crate::text::dec_int(n as int)
}

/// The three localized lines of a media synchronisation snapshot.
pub open spec fn sync_checked_line(p: &MediaSyncProgress) -> Seq<u8> {
    "media checked: ".spec_bytes() + crate::text::dec_int(p.checked as int)
}

pub open spec fn sync_added_line(p: &MediaSyncProgress) -> Seq<u8> {
    "media added: ".spec_bytes() + crate::text::dec_int(p.uploaded_files as int)
        + " up, ".spec_bytes() + crate::text::dec_int(p.downloaded_files as int)
        + " down".spec_bytes()
}

pub open spec fn sync_removed_line(p: &MediaSyncProgress) -> Seq<u8> {
    "media removed: ".spec_bytes() + crate::text::dec_int(p.uploaded_deletions as int)
        + " up, ".spec_bytes() + crate::text::dec_int(p.downloaded_deletions as int)
        + " down".spec_bytes()
}

/// The exact bytes delivered for one progress snapshot.
pub open spec fn progress_reply(p: &Progress) -> Seq<u8> {
    match p {
        Progress::MediaSync(s) => enc_u64(1) + (enc_byte_str(sync_checked_line(s)) + (enc_byte_str(
            sync_added_line(s),
        ) + enc_byte_str(sync_removed_line(s)))),
        Progress::MediaCheck(n) => enc_u64(2) + enc_byte_str(check_line(*n)),
    }
}

/// The argument names "up" and "down" differ (their byte lengths differ),
/// so looking either up in a two-argument list is unambiguous.
proof fn lemma_up_down_distinct()
    ensures
        "up".spec_bytes() != "down".spec_bytes(),
{
    broadcast use vstd::string::is_ascii_spec_bytes;

    reveal_strlit("up");
    reveal_strlit("down");
    assert(vstd::string::is_ascii("up"));
    assert(vstd::string::is_ascii("down"));
    assert("up".spec_bytes().len() == 2);
    assert("down".spec_bytes().len() == 4);
}

/// Serialises a progress snapshot with its localized lines; the bytes are
/// exactly `progress_reply` of the snapshot, so successive deliveries of a
/// walk differ only in their counter.
pub fn progress_to_proto_bytes(progress: Progress, i18n: &I18n) -> (r: Vec<u8>)
    ensures
        r@ == progress_reply(&progress),
{
    let msg = match progress {
        Progress::MediaSync(p) => {
            let mut args: Vec<TranslateArg> = Vec::new();
            args.push(
                TranslateArg {
                    name: lit_bytes("count"),
                    value: TranslateArgValue::Int(p.checked as i64),
                },
            );
            proof {
                assert(args@.len() == 1 && args@[0].name@ == "count".spec_bytes());
                assert(crate::i18n::lookup_arg(args@, "count".spec_bytes())
                    == crate::i18n::arg_bytes(&args@[0].value));
            }
            let checked = i18n.trn(&FString::SyncMediaCheckedCount, &args);
            let mut up_down: Vec<TranslateArg> = Vec::new();
            up_down.push(
                TranslateArg {
                    name: lit_bytes("up"),
                    value: TranslateArgValue::Int(p.uploaded_files as i64),
                },
            );
            up_down.push(
                TranslateArg {
                    name: lit_bytes("down"),
                    value: TranslateArgValue::Int(p.downloaded_files as i64),
                },
            );
            proof {
                lemma_up_down_distinct();
                assert(up_down@.len() == 2 && up_down@[0].name@ == "up".spec_bytes()
                    && up_down@[1].name@ == "down".spec_bytes());
                assert(crate::i18n::lookup_arg(up_down@, "up".spec_bytes())
                    == crate::i18n::arg_bytes(&up_down@[0].value));
                assert(up_down@.drop_first()[0] == up_down@[1]);
                assert(crate::i18n::lookup_arg(up_down@.drop_first(), "down".spec_bytes())
                    == crate::i18n::arg_bytes(&up_down@[1].value));
                assert(crate::i18n::lookup_arg(up_down@, "down".spec_bytes())
                    == crate::i18n::arg_bytes(&up_down@[1].value));
            }
            let added = i18n.trn(&FString::SyncMediaAddedCount, &up_down);
            let mut del_args: Vec<TranslateArg> = Vec::new();
            del_args.push(
                TranslateArg {
                    name: lit_bytes("up"),
                    value: TranslateArgValue::Int(p.uploaded_deletions as i64),
                },
            );
            del_args.push(
                TranslateArg {
                    name: lit_bytes("down"),
                    value: TranslateArgValue::Int(p.downloaded_deletions as i64),
                },
            );
            proof {
                lemma_up_down_distinct();
                assert(del_args@.len() == 2 && del_args@[0].name@ == "up".spec_bytes()
                    && del_args@[1].name@ == "down".spec_bytes());
                assert(crate::i18n::lookup_arg(del_args@, "up".spec_bytes())
                    == crate::i18n::arg_bytes(&del_args@[0].value));
                assert(del_args@.drop_first()[0] == del_args@[1]);
                assert(crate::i18n::lookup_arg(del_args@.drop_first(), "down".spec_bytes())
                    == crate::i18n::arg_bytes(&del_args@[1].value));
                assert(crate::i18n::lookup_arg(del_args@, "down".spec_bytes())
                    == crate::i18n::arg_bytes(&del_args@[1].value));
            }
            let removed = i18n.trn(&FString::SyncMediaRemovedCount, &del_args);
            WireProgress::MediaSync(MediaSyncProgressMsg { checked, added, removed })
        },
        Progress::MediaCheck(n) => {
            let mut args: Vec<TranslateArg> = Vec::new();
            args.push(
                TranslateArg { name: lit_bytes("count"), value: TranslateArgValue::Int(n as i64) },
            );
            proof {
                assert(args@.len() == 1 && args@[0].name@ == "count".spec_bytes());
                assert(crate::i18n::lookup_arg(args@, "count".spec_bytes())
                    == crate::i18n::arg_bytes(&args@[0].value));
            }
            WireProgress::MediaCheck(i18n.trn(&FString::MediaCheckChecked, &args))
        },
    };
    let out = encode_progress(&msg);
    proof {
        assert(out@ =~= progress_reply(&progress));
    }
    out
}


/// Both day-boundary outputs agree with the given offsets and rollover.
pub open spec fn sched_ok(
    created: int,
    now: int,
    cw: int,
    nw: int,
    roll: int,
    r: &SchedTimingTodayOut,
) -> bool {
    &&& r.days_elapsed == crate::sched::days_elapsed_spec(created, now, cw, nw, roll)
    &&& r.next_day_at == crate::sched::next_day_at_spec(now, nw, roll)
}

/// The day-boundary reply for a given rollover: exact for an explicit
/// now-offset (an absent created-offset equals it); for an absent
/// now-offset, exact for some machine offset within a day of UTC.
pub open spec fn sched_reply_ok_at(
    x: &crate::proto::SchedTimingTodayIn,
    r: &SchedTimingTodayOut,
    roll: int,
) -> bool {
    match x.now_mins_west {
        Some(nw) => {
            let cw = match x.created_mins_west {
                Some(w) => w as int,
                None => nw as int,
            };
            sched_ok(x.created_secs as int, x.now_secs as int, cw, nw as int, roll, r)
        },
        None => match x.created_mins_west {
            Some(w) => exists|m: i32|
                -1440 <= m <= 1440 && #[trigger] sched_ok(
                    x.created_secs as int,
                    x.now_secs as int,
                    w as int,
                    m as int,
                    roll,
                    r,
                ),
            None => exists|m: i32|
                -1440 <= m <= 1440 && #[trigger] sched_ok(
                    x.created_secs as int,
                    x.now_secs as int,
                    m as int,
                    m as int,
                    roll,
                    r,
                ),
        },
    }
}

/// The day-boundary reply, with an absent rollover hour defaulting to
/// four.
pub open spec fn sched_reply_ok(x: &crate::proto::SchedTimingTodayIn, r: &SchedTimingTodayOut) -> bool {
    sched_reply_ok_at(
        x,
        r,
        ((match x.rollover_hour {
            Some(h) => h,
            None => 4u8,
        }) % 24) as int,
    )
}


/// The counter a walk reports at step `j`, clamped to the wire width.
pub open spec fn step_counter(j: int) -> u32 {
    if j <= u32::MAX {
        j as u32
    } else {
        u32::MAX
    }
}

/// The first `k` snapshots a media synchronisation produces, in order.
pub open spec fn sync_snapshots(k: nat) -> Seq<Progress> {
    Seq::new(
        k,
        |j: int|
            Progress::MediaSync(
                MediaSyncProgress {
                    checked: step_counter(j),
                    uploaded_files: 0,
                    downloaded_files: 0,
                    uploaded_deletions: 0,
                    downloaded_deletions: 0,
                },
            ),
    )
}

/// The first `k` snapshots a media walk (check, trash) produces, in order.
pub open spec fn check_snapshots(k: nat) -> Seq<Progress> {
    Seq::new(k, |j: int| Progress::MediaCheck(step_counter(j)))
}

/// Progress deliveries of one long operation are strictly ordered with
/// increasing counters: within either snapshot run, an earlier snapshot
/// carries a strictly smaller counter, as long as the counters fit the
/// wire width.
pub proof fn lemma_snapshots_monotone(k: nat)
    ensures
        forall|a: int, b: int|
            0 <= a < b < k && b <= u32::MAX ==> (#[trigger] sync_snapshots(k)[a])
                ->MediaSync_0.checked < (#[trigger] sync_snapshots(k)[b])->MediaSync_0.checked,
        forall|a: int, b: int|
            0 <= a < b < k && b <= u32::MAX ==> (#[trigger] check_snapshots(k)[a])
                ->MediaCheck_0 < (#[trigger] check_snapshots(k)[b])->MediaCheck_0,
{
}

/// Both rendered sides match the scanned pieces of their templates.
pub open spec fn render_ok(x: &crate::proto::RenderCardIn, out: &RenderCardOut) -> bool {
    &&& crate::scan::scan_spec(x.question_template@, 123, 125) matches Some(ql)
        && out.question_nodes@.len() == ql.len() && (forall|i: int|
        0 <= i < ql.len() ==> crate::template::node_matches(
            &out.question_nodes@[i],
            ql[i],
            x.fields@,
        ))
    &&& crate::scan::scan_spec(x.answer_template@, 123, 125) matches Some(al)
        && out.answer_nodes@.len() == al.len() && (forall|i: int|
        0 <= i < al.len() ==> crate::template::node_matches(&out.answer_nodes@[i], al[i], x.fields@))
}

/// The clamped media-check report count for a folder of `n` files.
pub open spec fn check_report_line(n: nat) -> Seq<u8> {
    "checked ".spec_bytes() + crate::text::dec_int(
        if n <= i64::MAX {
            n as int
        } else {
            i64::MAX as int
        },
    )
}

/// What the dispatcher's reply must carry for each request variant, given
/// the states before and after the call.  Applies whenever the collection
/// was open or the request was open-collection; a closed collection is
/// answered with the not-open error by a separate clause.
pub open spec fn reply_matches<P: ProgressHandler>(
    pre: &Backend<P>,
    post: &Backend<P>,
    input: &BackendInput,
    r: &BackendOutput,
) -> bool {
    match input {
        BackendInput::TemplateRequirements(x) => r matches BackendOutput::TemplateRequirements(out)
            && out.requirements@.len() == x.template_front@.len() && (forall|i: int|
            0 <= i < out.requirements@.len() ==> crate::template::requirement_matches(
                &out.requirements@[i],
                crate::template::requirement_spec(
                    x.template_front@[i]@,
                    x.field_names_to_ordinals@,
                ),
            )),
        BackendInput::SchedTimingToday(x) => r matches BackendOutput::SchedTimingToday(out)
            && sched_reply_ok(x, &out),
        BackendInput::RenderCard(x) => {
            if crate::scan::scan_spec(x.question_template@, 123, 125) is Some
                && crate::scan::scan_spec(x.answer_template@, 123, 125) is Some {
                r matches BackendOutput::RenderCard(out) && render_ok(x, &out)
            } else {
                r matches BackendOutput::Error(e) && crate::err::translated_to(
                    &e,
                    2,
                    0,
                    "template parse failure: ".spec_bytes() + "unclosed field reference".spec_bytes(),
                )
            }
        },
        BackendInput::LocalMinutesWest(_) => r matches BackendOutput::LocalMinutesWest(m) && -1440
            <= *m && *m <= 1440,
        BackendInput::StripAvTags(t) => r matches BackendOutput::StripAvTags(s) && s@
            == crate::avtags::stripped_av(t@),
        BackendInput::ExtractAvTags(x) => r matches BackendOutput::ExtractAvTags(out) && out.text@
            == crate::avtags::stripped_av(x.text@) && crate::scan::bytes_list_match(
            out.av_tags@,
            crate::avtags::av_tag_names(x.text@),
        ),
        BackendInput::ExtractLatex(x) => r matches BackendOutput::ExtractLatex(out) && (
        match crate::scan::scan_spec(x.text@, 36, 36) {
            None => out.text@ == x.text@ && out.latex@.len() == 0,
            Some(l) => out.text@ == crate::avtags::latex_text(l, 0, x.svg)
                && crate::avtags::latex_list_match(
                out.latex@,
                crate::avtags::latex_pairs(l, 0, x.svg),
            ),
        }),
        BackendInput::AddMediaFile(x) => pre.col matches Some(c) && {
            if x.desired_name@.len() == 0 {
                r matches BackendOutput::Error(e) && crate::err::translated_to(
                    &e,
                    1,
                    0,
                    "invalid input: ".spec_bytes() + "empty media file name".spec_bytes(),
                ) && post.col == pre.col
            } else {
                r matches BackendOutput::AddMediaFile(name) && name@ == x.desired_name@ && (
                post.col matches Some(c2) && c2 == (Collection {
                    media_files: c2.media_files,
                    ..c
                }) && (match crate::collection::find_media_spec(c.media_files@, x.desired_name@) {
                    Some(i) => c2.media_files@ == c.media_files@.update(
                        i,
                        (crate::collection::MediaEntry { name: x.desired_name, data: x.data }),
                    ),
                    None => c2.media_files@ == c.media_files@.push(
                        (crate::collection::MediaEntry { name: x.desired_name, data: x.data }),
                    ),
                }))
            }
        },
        BackendInput::SyncMedia(_) => pre.col matches Some(c) && {
            if c.media_sync_running {
                r matches BackendOutput::Error(e) && crate::err::translated_to(
                    &e,
                    1,
                    0,
                    "invalid input: ".spec_bytes() + "media sync already in flight".spec_bytes(),
                )
            } else {
                (r is SyncMedia || (r matches BackendOutput::Error(e) && crate::err::translated_to(
                    &e,
                    7,
                    0,
                    "interrupted".spec_bytes(),
                ))) && (pre.progress_callback is None ==> r is SyncMedia)
            }
        },
        BackendInput::CheckMedia => pre.col matches Some(c) && ((r matches BackendOutput::CheckMedia(
            out,
        ) && out.unused@.len() == 0 && out.missing@.len() == 0 && out.report@ == check_report_line(
            c.media_files@.len(),
        ) && out.have_trash == (c.media_trash@.len() > 0)) || (r matches BackendOutput::Error(e)
            && crate::err::translated_to(&e, 7, 0, "interrupted".spec_bytes()))) && (
        pre.progress_callback is None ==> r is CheckMedia),
        BackendInput::TrashMediaFiles(x) => pre.col matches Some(c) && r is TrashMediaFiles && (
        post.col matches Some(c2) && c2 == (Collection {
            media_files: c2.media_files,
            media_trash: c2.media_trash,
            ..c
        }) && (c2.media_files@, c2.media_trash@) == crate::collection::trash_all(
            c.media_files@,
            c.media_trash@,
            x.fnames@,
            0,
        )),
        BackendInput::TranslateString(x) => r matches BackendOutput::TranslateString(s) && {
            if x.key > 3 {
                s@ == "invalid key".spec_bytes()
            } else {
                exists|k: FString|
                    crate::i18n::fstring_code(&k) == x.key && s@ == #[trigger] crate::i18n::message(
                        &k,
                        x.args@,
                    )
            }
        },
        BackendInput::FormatTimeSpan(x) => r matches BackendOutput::FormatTimeSpan(s) && {
            if x.context == 0 {
                s@ == crate::timespan::precise_text(x.seconds)
            } else if x.context == 1 {
                s@ == crate::timespan::button_text(x.seconds)
            } else if x.context == 2 {
                s@ == crate::timespan::interval_text(x.seconds)
            } else {
                s@.len() == 0
            }
        },
        BackendInput::StudiedToday(x) => r matches BackendOutput::StudiedToday(s) && s@
            == crate::timespan::studied_today_text(x.cards, x.seconds),
        BackendInput::CongratsLearnMsg(x) => r matches BackendOutput::CongratsLearnMsg(s) && s@
            == crate::timespan::learning_congrats_text(x.remaining, x.next_due),
        BackendInput::EmptyTrash => pre.col matches Some(c) && (((r is EmptyTrash) && (
        post.col matches Some(c2) && c2 == (Collection { media_trash: c2.media_trash, ..c })
            && c2.media_trash@.len() == 0)) || (r matches BackendOutput::Error(e)
            && crate::err::translated_to(&e, 7, 0, "interrupted".spec_bytes()) && post.col
            == pre.col)) && (pre.progress_callback is None ==> r is EmptyTrash),
        BackendInput::RestoreTrash => pre.col matches Some(c) && (((r is RestoreTrash) && (
        post.col matches Some(c2) && c2 == (Collection {
            media_files: c2.media_files,
            media_trash: c2.media_trash,
            ..c
        }) && (c2.media_files@, c2.media_trash@) == crate::collection::restore_all(
            c.media_files@,
            c.media_trash@,
        ))) || (r matches BackendOutput::Error(e) && crate::err::translated_to(
            &e,
            7,
            0,
            "interrupted".spec_bytes(),
        ) && post.col == pre.col)) && (pre.progress_callback is None ==> r is RestoreTrash),
        BackendInput::OpenCollection(x) => match pre.col {
            Some(_) => r matches BackendOutput::Error(e) && crate::err::translated_to(
                &e,
                9,
                0,
                "collection is already open".spec_bytes(),
            ) && post.col == pre.col,
            None => {
                if x.collection_path@.len() == 0 {
                    r matches BackendOutput::Error(e) && crate::err::translated_to(
                        &e,
                        3,
                        0,
                        "io error: ".spec_bytes() + "missing collection path".spec_bytes(),
                    ) && post.col is None
                } else {
                    r is OpenCollection && (post.col matches Some(c) && c.col_path@
                        == x.collection_path@ && c.media_folder@ == x.media_folder_path@
                        && c.media_db@ == x.media_db_path@ && c.server == pre.server
                        && !c.media_sync_running && c.cards@.len() == 0 && c.media_files@.len()
                        == 0 && c.media_trash@.len() == 0)
                }
            },
        },
        BackendInput::CloseCollection => pre.col matches Some(c) && {
            if c.media_sync_running {
                r matches BackendOutput::Error(e) && crate::err::translated_to(
                    &e,
                    1,
                    0,
                    "invalid input: ".spec_bytes() + "can't close yet".spec_bytes(),
                ) && post.col == pre.col
            } else {
                r is CloseCollection && post.col is None
            }
        },
        BackendInput::SearchCards(x) => pre.col matches Some(c) && {
            if crate::search::query_ok(x.search@) {
                r matches BackendOutput::SearchCards(out) && (match x.order {
                    SortOrder::Builtin(b) => exists|s: Seq<crate::search::SortEnt>|
                        {
                            &&& out.card_ids@ == crate::search::ents_ids(s)
                            &&& #[trigger] s.to_multiset() == crate::search::match_ents(
                                c.cards@,
                                x.search@,
                                &crate::search::sort_kind_of(b.kind),
                                0,
                            ).to_multiset()
                            &&& crate::search::ents_sorted(b.reverse, s)
                        },
                    _ => out.card_ids@ == crate::search::matching_ids(c.cards@, x.search@),
                })
            } else {
                r matches BackendOutput::Error(e) && crate::err::translated_to(
                    &e,
                    1,
                    0,
                    "invalid input: ".spec_bytes() + "invalid search".spec_bytes(),
                )
            }
        },
        BackendInput::SearchNotes(x) => pre.col matches Some(c) && {
            if crate::search::query_ok(x.search@) {
                r matches BackendOutput::SearchNotes(out) && out.note_ids@
                    == crate::search::matching_nids(c.cards@, x.search@, Seq::empty())
            } else {
                r matches BackendOutput::Error(e) && crate::err::translated_to(
                    &e,
                    1,
                    0,
                    "invalid input: ".spec_bytes() + "invalid search".spec_bytes(),
                )
            }
        },
        BackendInput::GetCard(cid) => pre.col matches Some(c) && (r matches BackendOutput::GetCard(
            out,
        ) && (match out.card {
            Some(wc) => exists|i: int|
                0 <= i < c.cards@.len() && #[trigger] c.cards@[i].id == cid
                    && crate::card::card_matches_wire(&c.cards@[i], &wc),
            None => forall|i: int| 0 <= i < c.cards@.len() ==> #[trigger] c.cards@[i].id != cid,
        })),
        BackendInput::UpdateCard(w) => pre.col matches Some(c) && {
            if !crate::card::valid_wire_card(w) {
                r matches BackendOutput::Error(e) && crate::err::translated_to(
                    &e,
                    1,
                    0,
                    "invalid input: ".spec_bytes() + (if w.ctype > 3 {
                        "invalid card type".spec_bytes()
                    } else {
                        "invalid card queue".spec_bytes()
                    }),
                ) && post.col == pre.col
            } else if (forall|i: int| 0 <= i < c.cards@.len() ==> #[trigger] c.cards@[i].id != w.id) {
                r matches BackendOutput::Error(e) && crate::err::translated_to(
                    &e,
                    4,
                    0,
                    "database error: ".spec_bytes() + "card not found".spec_bytes(),
                ) && post.col == pre.col
            } else {
                r is UpdateCard && (post.col matches Some(c2) && c2 == (Collection {
                    cards: c2.cards,
                    ..c
                }) && c2.cards@.len() == c.cards@.len() && exists|i: int|
                    {
                        &&& 0 <= i < c.cards@.len()
                        &&& #[trigger] c.cards@[i].id == w.id
                        &&& crate::card::card_matches_wire(&c2.cards@[i], w)
                        &&& forall|j: int|
                            0 <= j < c.cards@.len() && j != i ==> c2.cards@[j] == c.cards@[j]
                    })
            }
        },
        BackendInput::AddCard(w) => pre.col matches Some(c) && {
            if !crate::card::valid_wire_card(w) {
                r matches BackendOutput::Error(e) && crate::err::translated_to(
                    &e,
                    1,
                    0,
                    "invalid input: ".spec_bytes() + (if w.ctype > 3 {
                        "invalid card type".spec_bytes()
                    } else {
                        "invalid card queue".spec_bytes()
                    }),
                ) && post.col == pre.col
            } else if c.cards@.len() > 0 && c.cards@.last().id == i64::MAX {
                r matches BackendOutput::Error(e) && crate::err::translated_to(
                    &e,
                    4,
                    0,
                    "database error: ".spec_bytes() + "card id space exhausted".spec_bytes(),
                ) && post.col == pre.col
            } else {
                r matches BackendOutput::AddCard(id) && id == (if c.cards@.len() == 0 {
                    1int
                } else {
                    c.cards@.last().id + 1
                }) && (post.col matches Some(c2) && c2 == (Collection { cards: c2.cards, ..c })
                    && c2.cards@.len() == c.cards@.len() + 1 && c2.cards@.last().id == id
                    && crate::card::card_matches_wire(&c2.cards@.last(), &(WireCard { id: *id, ..*w }))
                    && (forall|j: int| 0 <= j < c.cards@.len() ==> c2.cards@[j] == c.cards@[j]))
            }
        },
    }
}

/// The exact bytes of the reply to an undecodable request.
pub open spec fn decode_failure_reply() -> Seq<u8> {
    enc_u64(25) + (enc_u64(1) + (enc_u64(0) + enc_byte_str(
        "invalid input: ".spec_bytes() + "couldn't decode backend request".spec_bytes(),
    )))
}

impl<P: ProgressHandler> Backend<P> {
    /// Analyses each template front against the field map; an unparseable
    /// front is reported unsatisfiable rather than failing the batch.
    pub fn template_requirements(&self, input: crate::proto::TemplateRequirementsIn) -> (r:
        TemplateRequirementsOut)
        ensures
            r.requirements@.len() == input.template_front@.len(),
            forall|i: int|
                0 <= i < r.requirements@.len() ==> crate::template::requirement_matches(
                    &r.requirements@[i],
                    crate::template::requirement_spec(
                        input.template_front@[i]@,
                        input.field_names_to_ordinals@,
                    ),
                ),
    {
        let mut reqs: Vec<TemplateRequirement> = Vec::new();
        let mut i: usize = 0;
        while i < input.template_front.len()
            invariant
                i <= input.template_front@.len(),
                reqs@.len() == i,
                forall|k: int|
                    0 <= k < i ==> crate::template::requirement_matches(
                        &reqs@[k],
                        crate::template::requirement_spec(
                            input.template_front@[k]@,
                            input.field_names_to_ordinals@,
                        ),
                    ),
            decreases input.template_front@.len() - i,
        {
            let req = crate::template::template_requirement(
                &input.template_front[i],
                &input.field_names_to_ordinals,
            );
            reqs.push(req);
            i = i + 1;
        }
        TemplateRequirementsOut { requirements: reqs }
    }

    /// Computes the day boundary.  With an explicit now-offset the result
    /// is pinned exactly (a missing created-offset equals the now-offset,
    /// a missing rollover hour defaults to four); only when the now-offset
    /// is absent does the machine's timezone pick the offset, and then it
    /// lies within a day of UTC.
    pub fn sched_timing_today(&self, input: crate::proto::SchedTimingTodayIn) -> (r:
        SchedTimingTodayOut)
        ensures
            sched_reply_ok(&input, &r),
    {
        let now_west: i32 = match input.now_mins_west {
            Some(w) => w,
            None => crate::sched::local_minutes_west_for_stamp(input.now_secs),
        };
        let created_west: i32 = match input.created_mins_west {
            Some(w) => w,
            None => now_west,
        };
        let rollover: u8 = match input.rollover_hour {
            Some(h) => h,
            None => 4,
        };
        let r = crate::sched::sched_timing_compute(
            input.created_secs,
            input.now_secs,
            created_west,
            now_west,
            rollover,
        );
        proof {
            let roll = (rollover % 24) as int;
            assert(sched_ok(
                input.created_secs as int,
                input.now_secs as int,
                created_west as int,
                now_west as int,
                roll,
                &r,
            ));
            match input.now_mins_west {
                Some(nw) => {
                    assert(now_west == nw);
                },
                None => {
                    assert(-1440 <= now_west <= 1440);
                    match input.created_mins_west {
                        Some(w) => {
                            assert(sched_ok(
                                input.created_secs as int,
                                input.now_secs as int,
                                w as int,
                                now_west as int,
                                roll,
                                &r,
                            ));
                        },
                        None => {
                            assert(sched_ok(
                                input.created_secs as int,
                                input.now_secs as int,
                                now_west as int,
                                now_west as int,
                                roll,
                                &r,
                            ));
                        },
                    }
                },
            }
            assert(sched_reply_ok_at(&input, &r, roll));
            assert(sched_reply_ok(&input, &r));
        }
        r
    }

    /// Renders both template sides; an ill-delimited template is a
    /// template-parse failure.
    pub fn render_template(&self, input: crate::proto::RenderCardIn) -> (r: Result<
        RenderCardOut,
        AnkiError,
    >)
        ensures
            match r {
                Ok(out) => {
                    &&& crate::scan::scan_spec(input.question_template@, 123, 125) matches Some(ql)
                        && out.question_nodes@.len() == ql.len() && (forall|i: int|
                        0 <= i < ql.len() ==> crate::template::node_matches(
                            &out.question_nodes@[i],
                            ql[i],
                            input.fields@,
                        ))
                    &&& crate::scan::scan_spec(input.answer_template@, 123, 125) matches Some(al)
                        && out.answer_nodes@.len() == al.len() && (forall|i: int|
                        0 <= i < al.len() ==> crate::template::node_matches(
                            &out.answer_nodes@[i],
                            al[i],
                            input.fields@,
                        ))
                },
                Err(e) => (crate::scan::scan_spec(input.question_template@, 123, 125) is None
                    || crate::scan::scan_spec(input.answer_template@, 123, 125) is None) && (
                e matches AnkiError::TemplateError { info } && info@
                    == "unclosed field reference".spec_bytes()),
            },
    {
        let qp = match crate::scan::scan_tags(&input.question_template, 123, 125) {
            Some(p) => p,
            None => {
                return Err(
                    AnkiError::TemplateError { info: lit_bytes("unclosed field reference") },
                );
            },
        };
        let ap = match crate::scan::scan_tags(&input.answer_template, 123, 125) {
            Some(p) => p,
            None => {
                return Err(
                    AnkiError::TemplateError { info: lit_bytes("unclosed field reference") },
                );
            },
        };
        let question_nodes = crate::template::render_nodes(&qp, &input.fields);
        let answer_nodes = crate::template::render_nodes(&ap, &input.fields);
        Ok(RenderCardOut { question_nodes, answer_nodes })
    }

    /// Runs one decoded request to exactly one response; every handler
    /// failure is translated.  While the collection is closed, any request
    /// but open-collection is answered with the collection-not-open error,
    /// and a request that leaves the dispatcher never leaves the handle
    /// marked busy.
    #[verifier::rlimit(100)]
    #[verifier::spinoff_prover]
    pub fn run_command(&mut self, input: BackendInput) -> (r: BackendOutput)
        requires
            backend_wf(old(self)),
        ensures
            backend_wf(final(self)),
            frame(old(self), final(self)),
            (old(self).col is None && !(input is OpenCollection)) ==> ((r matches
                BackendOutput::Error(e) && translated(&AnkiError::CollectionNotOpen, &e))
                && final(self).col is None),
            (old(self).col is Some || input is OpenCollection) ==> reply_matches(
                old(self),
                final(self),
                &input,
                &r,
            ),
            !(input is OpenCollection || input is CloseCollection || input is AddMediaFile
                || input is TrashMediaFiles || input is EmptyTrash || input is RestoreTrash
                || input is UpdateCard || input is AddCard) ==> final(self).col == old(self).col,
            (old(self).col matches Some(c) && !c.media_sync_running) ==> (match final(self).col {
                Some(c2) => !c2.media_sync_running,
                None => true,
            }),
            old(self).col is None ==> (match final(self).col {
                Some(c2) => !c2.media_sync_running,
                None => true,
            }),
    {
        let is_open_req = match &input {
            BackendInput::OpenCollection(_) => true,
            _ => false,
        };
        if !is_open_req && self.col.is_none() {
            let e = anki_error_to_proto_error(&AnkiError::CollectionNotOpen, &self.i18n);
            return BackendOutput::Error(e);
        }
        match input {
            BackendInput::TemplateRequirements(x) => BackendOutput::TemplateRequirements(
                self.template_requirements(x),
            ),
            BackendInput::SchedTimingToday(x) => BackendOutput::SchedTimingToday(
                self.sched_timing_today(x),
            ),
            BackendInput::RenderCard(x) => match self.render_template(x) {
                Ok(out) => BackendOutput::RenderCard(out),
                Err(e) => BackendOutput::Error(anki_error_to_proto_error(&e, &self.i18n)),
            },
            BackendInput::LocalMinutesWest(stamp) => BackendOutput::LocalMinutesWest(
                crate::sched::local_minutes_west_for_stamp(stamp),
            ),
            BackendInput::StripAvTags(text) => BackendOutput::StripAvTags(
                crate::avtags::strip_av_tags(&text),
            ),
            BackendInput::ExtractAvTags(x) => {
                let (text, av_tags) = crate::avtags::extract_av_tags(&x.text);
                BackendOutput::ExtractAvTags(ExtractAvTagsOut { text, av_tags })
            },
            BackendInput::ExtractLatex(x) => {
                let (text, latex) = crate::avtags::extract_latex(&x.text, x.svg);
                BackendOutput::ExtractLatex(ExtractLatexOut { text, latex })
            },
            BackendInput::AddMediaFile(x) => {
                let res = match &mut self.col {
                    None => Err(AnkiError::CollectionNotOpen),
                    Some(c) => c.add_media_file(x.desired_name, x.data),
                };
                match res {
                    Ok(name) => BackendOutput::AddMediaFile(name),
                    Err(e) => BackendOutput::Error(anki_error_to_proto_error(&e, &self.i18n)),
                }
            },
            BackendInput::SyncMedia(x) => match self.sync_media(x) {
                Ok(_) => BackendOutput::SyncMedia,
                Err(e) => BackendOutput::Error(anki_error_to_proto_error(&e, &self.i18n)),
            },
            BackendInput::CheckMedia => match self.check_media() {
                Ok(out) => BackendOutput::CheckMedia(out),
                Err(e) => BackendOutput::Error(anki_error_to_proto_error(&e, &self.i18n)),
            },
            BackendInput::TrashMediaFiles(x) => {
                let res = match &mut self.col {
                    None => Err(AnkiError::CollectionNotOpen),
                    Some(c) => {
                        c.remove_media_files(&x.fnames);
                        Ok(())
                    },
                };
                match res {
                    Ok(_) => BackendOutput::TrashMediaFiles,
                    Err(e) => BackendOutput::Error(anki_error_to_proto_error(&e, &self.i18n)),
                }
            },
            BackendInput::TranslateString(x) => BackendOutput::TranslateString(
                self.translate_string(x),
            ),
            BackendInput::FormatTimeSpan(x) => BackendOutput::FormatTimeSpan(
                self.format_time_span(x),
            ),
            BackendInput::StudiedToday(x) => BackendOutput::StudiedToday(
                crate::timespan::studied_today(x.cards, x.seconds),
            ),
            BackendInput::CongratsLearnMsg(x) => BackendOutput::CongratsLearnMsg(
                crate::timespan::learning_congrats(x.remaining, x.next_due),
            ),
            BackendInput::EmptyTrash => match self.empty_trash() {
                Ok(_) => BackendOutput::EmptyTrash,
                Err(e) => BackendOutput::Error(anki_error_to_proto_error(&e, &self.i18n)),
            },
            BackendInput::RestoreTrash => match self.restore_trash() {
                Ok(_) => BackendOutput::RestoreTrash,
                Err(e) => BackendOutput::Error(anki_error_to_proto_error(&e, &self.i18n)),
            },
            BackendInput::OpenCollection(x) => match self.open_collection(x) {
                Ok(_) => BackendOutput::OpenCollection,
                Err(e) => BackendOutput::Error(anki_error_to_proto_error(&e, &self.i18n)),
            },
            BackendInput::CloseCollection => match self.close_collection() {
                Ok(_) => BackendOutput::CloseCollection,
                Err(e) => BackendOutput::Error(anki_error_to_proto_error(&e, &self.i18n)),
            },
            BackendInput::SearchCards(x) => {
                let res = match &self.col {
                    None => Err(AnkiError::CollectionNotOpen),
                    Some(c) => {
                        let mode = crate::search::sort_mode_from_order(x.order);
                        crate::search::search_cards(&c.cards, &x.search, mode)
                    },
                };
                match res {
                    Ok(card_ids) => BackendOutput::SearchCards(SearchCardsOut { card_ids }),
                    Err(e) => BackendOutput::Error(anki_error_to_proto_error(&e, &self.i18n)),
                }
            },
            BackendInput::SearchNotes(x) => {
                let res = match &self.col {
                    None => Err(AnkiError::CollectionNotOpen),
                    Some(c) => crate::search::search_notes(&c.cards, &x.search),
                };
                match res {
                    Ok(note_ids) => BackendOutput::SearchNotes(SearchNotesOut { note_ids }),
                    Err(e) => BackendOutput::Error(anki_error_to_proto_error(&e, &self.i18n)),
                }
            },
            BackendInput::GetCard(cid) => {
                let out = match &self.col {
                    None => None,
                    Some(c) => match c.find_card(cid) {
                        Some(idx) => Some(card_to_pb(&c.cards[idx])),
                        None => None,
                    },
                };
                BackendOutput::GetCard(GetCardOut { card: out })
            },
            BackendInput::UpdateCard(w) => {
                let res = match pbcard_to_native(w) {
                    Ok(card) => match &mut self.col {
                        None => Err(AnkiError::CollectionNotOpen),
                        Some(c) => c.update_card(card),
                    },
                    Err(e) => Err(e),
                };
                match res {
                    Ok(_) => BackendOutput::UpdateCard,
                    Err(e) => BackendOutput::Error(anki_error_to_proto_error(&e, &self.i18n)),
                }
            },
            BackendInput::AddCard(w) => {
                let res = match pbcard_to_native(w) {
                    Ok(card) => match &mut self.col {
                        None => Err(AnkiError::CollectionNotOpen),
                        Some(c) => c.add_card(card),
                    },
                    Err(e) => Err(e),
                };
                match res {
                    Ok(id) => BackendOutput::AddCard(id),
                    Err(e) => BackendOutput::Error(anki_error_to_proto_error(&e, &self.i18n)),
                }
            },
        }
    }

    /// Decodes a request, processes it, and returns the encoded reply:
    /// exactly one response per call.  Bytes that decode as no request are
    /// answered with the invalid-input error reply, never a fault; bytes
    /// that decode as a request are answered with the encoding of the
    /// dispatcher's response to it, so for a fixed handle state the whole
    /// chain is pinned by the dispatcher's contract.
    pub fn run_command_bytes(&mut self, req: &[u8]) -> (r: Vec<u8>)
        requires
            backend_wf(old(self)),
        ensures
            backend_wf(final(self)),
            frame(old(self), final(self)),
            (forall|v: BackendInput| v.enc() != req@) ==> r@ == decode_failure_reply() && final(self).col == old(self).col,
            (exists|v: BackendInput| v.enc() == req@) ==> (exists|
                w: BackendInput,
                resp: BackendOutput,
            |
                #![trigger w.enc(), resp.enc()]
                {
                    &&& w.enc() == req@
                    &&& r@ == resp.enc()
                    &&& ((old(self).col is None && !(w is OpenCollection)) ==> (resp matches
                        BackendOutput::Error(e) && translated(&AnkiError::CollectionNotOpen, &e))
                        && final(self).col is None)
                    &&& ((old(self).col is Some || w is OpenCollection) ==> reply_matches(
                        old(self),
                        final(self),
                        &w,
                        &resp,
                    ))
                }),
    {
        let input = match crate::proto::decode_input(req) {
            Some(i) => i,
            None => {
                let err = AnkiError::InvalidInput {
                    info: lit_bytes("couldn't decode backend request"),
                };
                let oerr = anki_error_to_proto_error(&err, &self.i18n);
                let output = BackendOutput::Error(oerr);
                let buf = encode_output(&output);
                proof {
                    assert(buf@ =~= decode_failure_reply());
                }
                return buf;
            },
        };
        let ghost input0 = input;
        let resp = self.run_command(input);
        let out = encode_output(&resp);
        proof {
            assert(input0.enc() == req@);
            assert(out@ == resp.enc());
            if forall|v: BackendInput| v.enc() != req@ {
                assert(false);
            }
        }
        out
    }

    /// Translates a message key with arguments; unknown keys answer with
    /// fixed text.
    pub fn translate_string(&self, input: crate::proto::TranslateStringIn) -> (r: Vec<u8>)
        ensures
            input.key > 3 ==> r@ == "invalid key".spec_bytes(),
            input.key <= 3 ==> exists|k: FString|
                crate::i18n::fstring_code(&k) == input.key && r@ == #[trigger] crate::i18n::message(
                    &k,
                    input.args@,
                ),
    {
        match self.i18n.key_from_u32(input.key) {
            None => lit_bytes("invalid key"),
            Some(key) => self.i18n.trn(&key, &input.args),
        }
    }

    /// Formats a span for one of the three display contexts; an unknown
    /// context formats as empty text.
    pub fn format_time_span(&self, input: crate::proto::FormatTimeSpanIn) -> (r: Vec<u8>)
        ensures
            input.context == 0 ==> r@ == crate::timespan::precise_text(input.seconds),
            input.context == 1 ==> r@ == crate::timespan::button_text(input.seconds),
            input.context == 2 ==> r@ == crate::timespan::interval_text(input.seconds),
            input.context > 2 ==> r@.len() == 0,
    {
        if input.context == 0 {
            crate::timespan::time_span_precise(input.seconds)
        } else if input.context == 1 {
            crate::timespan::answer_button_time(input.seconds)
        } else if input.context == 2 {
            crate::timespan::time_span_intervals(input.seconds)
        } else {
            Vec::new()
        }
    }
}

} // verus!
