//! The request and response envelopes and their payloads.
//!
//! Each envelope is a tagged union: a varint tag followed by the payload
//! fields in order.  Requests implement `Wire` (read and written), responses
//! only `WireEnc` (the engine writes them; the host reads them).  Text fields
//! travel as UTF-8 bytes.

use vstd::prelude::*;
use crate::codec::enc_u64;
use crate::wire::{enc_list, enc_opt, read_i64_list, read_list, read_opt, write_list, write_opt, Wire, WireEnc};

verus! {

/// One name-to-ordinal entry of a template's field map.
pub struct FieldOrdinal {
    pub name: Vec<u8>,
    pub ord: u32,
}

impl WireEnc for FieldOrdinal {
    open spec fn enc(&self) -> Seq<u8> {
        self.name.enc() + self.ord.enc()
    }

    fn write(&self, out: &mut Vec<u8>) {
        self.name.write(out);
        self.ord.write(out);
        assert(final(out)@ =~= old(out)@ + self.enc());
    }
}

impl Wire for FieldOrdinal {
    fn read(buf: &[u8], pos: usize) -> (r: Option<(Self, usize)>) {
        proof {
            assert forall|v: Self, rest: Seq<u8>|
                #[trigger] (v.enc() + rest) == buf@.skip(pos as int) implies v.name.enc() + (
            v.ord.enc() + rest) == buf@.skip(pos as int) by {
                assert(v.enc() + rest =~= v.name.enc() + (v.ord.enc() + rest));
            }
        }
        match <Vec<u8> as Wire>::read(buf, pos) {
            None => None,
            Some((name, p1)) => match <u32 as Wire>::read(buf, p1) {
                None => None,
                Some((ord, p2)) => {
                    let x = FieldOrdinal { name, ord };
                    proof {
                        assert(buf@.skip(pos as int) =~= x.enc() + buf@.skip(p2 as int));
                        assert forall|v: Self, rest: Seq<u8>|
                            #[trigger] (v.enc() + rest) == buf@.skip(pos as int) implies x.enc()
                            == v.enc() && buf@.skip(p2 as int) == rest by {
                            assert(x.enc() =~= v.enc());
                        }
                    }
                    Some((x, p2))
                },
            },
        }
    }
}

/// One field's current text, for template rendering.
pub struct FieldValue {
    pub name: Vec<u8>,
    pub value: Vec<u8>,
}

impl WireEnc for FieldValue {
    open spec fn enc(&self) -> Seq<u8> {
        self.name.enc() + self.value.enc()
    }

    fn write(&self, out: &mut Vec<u8>) {
        self.name.write(out);
        self.value.write(out);
        assert(final(out)@ =~= old(out)@ + self.enc());
    }
}

impl Wire for FieldValue {
    fn read(buf: &[u8], pos: usize) -> (r: Option<(Self, usize)>) {
        proof {
            assert forall|v: Self, rest: Seq<u8>|
                #[trigger] (v.enc() + rest) == buf@.skip(pos as int) implies v.name.enc() + (
            v.value.enc() + rest) == buf@.skip(pos as int) by {
                assert(v.enc() + rest =~= v.name.enc() + (v.value.enc() + rest));
            }
        }
        match <Vec<u8> as Wire>::read(buf, pos) {
            None => None,
            Some((name, p1)) => match <Vec<u8> as Wire>::read(buf, p1) {
                None => None,
                Some((value, p2)) => {
                    let x = FieldValue { name, value };
                    proof {
                        assert(buf@.skip(pos as int) =~= x.enc() + buf@.skip(p2 as int));
                        assert forall|v: Self, rest: Seq<u8>|
                            #[trigger] (v.enc() + rest) == buf@.skip(pos as int) implies x.enc()
                            == v.enc() && buf@.skip(p2 as int) == rest by {
                            assert(x.enc() =~= v.enc());
                        }
                    }
                    Some((x, p2))
                },
            },
        }
    }
}

/// A translation argument: either text or an integer.
pub enum TranslateArgValue {
    Text(Vec<u8>),
    Int(i64),
}

impl WireEnc for TranslateArgValue {
    open spec fn enc(&self) -> Seq<u8> {
        match self {
            TranslateArgValue::Text(s) => enc_u64(1) + s.enc(),
            TranslateArgValue::Int(n) => enc_u64(2) + n.enc(),
        }
    }

    fn write(&self, out: &mut Vec<u8>) {
        match self {
            TranslateArgValue::Text(s) => {
                crate::codec::write_u64(out, 1);
                s.write(out);
            },
            TranslateArgValue::Int(n) => {
                crate::codec::write_u64(out, 2);
                n.write(out);
            },
        }
        assert(final(out)@ =~= old(out)@ + self.enc());
    }
}

impl Wire for TranslateArgValue {
    fn read(buf: &[u8], pos: usize) -> (r: Option<(Self, usize)>) {
        proof {
            assert forall|v: Self, rest: Seq<u8>|
                #[trigger] (v.enc() + rest) == buf@.skip(pos as int) implies match v {
                TranslateArgValue::Text(s) => enc_u64(1) + (s.enc() + rest) == buf@.skip(
                    pos as int,
                ),
                TranslateArgValue::Int(n) => enc_u64(2) + (n.enc() + rest) == buf@.skip(
                    pos as int,
                ),
            } by {
                match v {
                    TranslateArgValue::Text(s) => {
                        assert(v.enc() + rest =~= enc_u64(1) + (s.enc() + rest));
                    },
                    TranslateArgValue::Int(n) => {
                        assert(v.enc() + rest =~= enc_u64(2) + (n.enc() + rest));
                    },
                }
            }
        }
        match crate::codec::read_u64(buf, pos) {
            Some((1u64, p1)) => match <Vec<u8> as Wire>::read(buf, p1) {
                None => None,
                Some((s, p2)) => {
                    let x = TranslateArgValue::Text(s);
                    proof {
                        assert(buf@.skip(pos as int) =~= x.enc() + buf@.skip(p2 as int));
                        assert forall|v: Self, rest: Seq<u8>|
                            #[trigger] (v.enc() + rest) == buf@.skip(pos as int) implies x.enc()
                            == v.enc() && buf@.skip(p2 as int) == rest by {
                            assert(x.enc() =~= v.enc());
                        }
                    }
                    Some((x, p2))
                },
            },
            Some((2u64, p1)) => match <i64 as Wire>::read(buf, p1) {
                None => None,
                Some((n, p2)) => {
                    let x = TranslateArgValue::Int(n);
                    proof {
                        assert(buf@.skip(pos as int) =~= x.enc() + buf@.skip(p2 as int));
                        assert forall|v: Self, rest: Seq<u8>|
                            #[trigger] (v.enc() + rest) == buf@.skip(pos as int) implies x.enc()
                            == v.enc() && buf@.skip(p2 as int) == rest by {
                            assert(x.enc() =~= v.enc());
                        }
                    }
                    Some((x, p2))
                },
            },
            _ => None,
        }
    }
}

/// A named translation argument.
pub struct TranslateArg {
    pub name: Vec<u8>,
    pub value: TranslateArgValue,
}

impl WireEnc for TranslateArg {
    open spec fn enc(&self) -> Seq<u8> {
        self.name.enc() + self.value.enc()
    }

    fn write(&self, out: &mut Vec<u8>) {
        self.name.write(out);
        self.value.write(out);
        assert(final(out)@ =~= old(out)@ + self.enc());
    }
}

impl Wire for TranslateArg {
    fn read(buf: &[u8], pos: usize) -> (r: Option<(Self, usize)>) {
        proof {
            assert forall|v: Self, rest: Seq<u8>|
                #[trigger] (v.enc() + rest) == buf@.skip(pos as int) implies v.name.enc() + (
            v.value.enc() + rest) == buf@.skip(pos as int) by {
                assert(v.enc() + rest =~= v.name.enc() + (v.value.enc() + rest));
            }
        }
        match <Vec<u8> as Wire>::read(buf, pos) {
            None => None,
            Some((name, p1)) => match <TranslateArgValue as Wire>::read(buf, p1) {
                None => None,
                Some((value, p2)) => {
                    let x = TranslateArg { name, value };
                    proof {
                        assert(buf@.skip(pos as int) =~= x.enc() + buf@.skip(p2 as int));
                        assert forall|v: Self, rest: Seq<u8>|
                            #[trigger] (v.enc() + rest) == buf@.skip(pos as int) implies x.enc()
                            == v.enc() && buf@.skip(p2 as int) == rest by {
                            assert(x.enc() =~= v.enc());
                        }
                    }
                    Some((x, p2))
                },
            },
        }
    }
}


/// Template fronts plus the field map they are judged against.
pub struct TemplateRequirementsIn {
    pub template_front: Vec<Vec<u8>>,
    pub field_names_to_ordinals: Vec<FieldOrdinal>,
}

impl WireEnc for TemplateRequirementsIn {
    open spec fn enc(&self) -> Seq<u8> {
        enc_list(self.template_front@) + enc_list(self.field_names_to_ordinals@)
    }

    fn write(&self, out: &mut Vec<u8>) {
        write_list(out, &self.template_front);
        write_list(out, &self.field_names_to_ordinals);
        assert(final(out)@ =~= old(out)@ + self.enc());
    }
}

impl Wire for TemplateRequirementsIn {
    fn read(buf: &[u8], pos: usize) -> (r: Option<(Self, usize)>) {
        proof {
            assert forall|v: Self, rest: Seq<u8>|
                #[trigger] (v.enc() + rest) == buf@.skip(pos as int) implies enc_list(v.template_front@) + (enc_list(v.field_names_to_ordinals@) + (rest)) == buf@.skip(pos as int) && v.template_front@.len() <= u64::MAX && v.field_names_to_ordinals@.len() <= u64::MAX by {
                assert(v.enc() + rest =~= enc_list(v.template_front@) + (enc_list(v.field_names_to_ordinals@) + (rest)));
                assert(v.template_front.len() <= u64::MAX);
                assert(v.field_names_to_ordinals.len() <= u64::MAX);
            }
        }
        match read_list::<Vec<u8>>(buf, pos) {
                None => None,
                Some((template_front, p1)) => match read_list::<FieldOrdinal>(buf, p1) {
                None => None,
                Some((field_names_to_ordinals, p2)) => {
                let x = TemplateRequirementsIn { template_front, field_names_to_ordinals };
                proof {
                    assert(buf@.skip(pos as int) =~= x.enc() + buf@.skip(p2 as int));
                    assert forall|v: Self, rest: Seq<u8>|
                        #[trigger] (v.enc() + rest) == buf@.skip(pos as int) implies x.enc() == v.enc() && buf@.skip(p2 as int) == rest by {
                        assert(x.enc() =~= v.enc());
                    }
                }
                Some((x, p2))
            },
            },
            }
    }
}


/// Inputs of the day-boundary computation; absent offsets fall back to
/// the machine's time zone.
pub struct SchedTimingTodayIn {
    pub created_secs: i64,
    pub now_secs: i64,
    pub created_mins_west: Option<i32>,
    pub now_mins_west: Option<i32>,
    pub rollover_hour: Option<u8>,
}

impl WireEnc for SchedTimingTodayIn {
    open spec fn enc(&self) -> Seq<u8> {
        self.created_secs.enc() + self.now_secs.enc() + enc_opt(&self.created_mins_west) + enc_opt(&self.now_mins_west) + enc_opt(&self.rollover_hour)
    }

    fn write(&self, out: &mut Vec<u8>) {
        self.created_secs.write(out);
        self.now_secs.write(out);
        write_opt(out, &self.created_mins_west);
        write_opt(out, &self.now_mins_west);
        write_opt(out, &self.rollover_hour);
        assert(final(out)@ =~= old(out)@ + self.enc());
    }
}

impl Wire for SchedTimingTodayIn {
    #[verifier::rlimit(60)]
    #[verifier::spinoff_prover]
    fn read(buf: &[u8], pos: usize) -> (r: Option<(Self, usize)>) {
        proof {
            assert forall|v: Self, rest: Seq<u8>|
                #[trigger] (v.enc() + rest) == buf@.skip(pos as int) implies v.created_secs.enc() + (v.now_secs.enc() + (enc_opt(&v.created_mins_west) + (enc_opt(&v.now_mins_west) + (enc_opt(&v.rollover_hour) + (rest))))) == buf@.skip(pos as int) by {
                assert(v.enc() + rest =~= v.created_secs.enc() + (v.now_secs.enc() + (enc_opt(&v.created_mins_west) + (enc_opt(&v.now_mins_west) + (enc_opt(&v.rollover_hour) + (rest))))));

            }
        }
        match <i64 as Wire>::read(buf, pos) {
                None => None,
                Some((created_secs, p1)) => match <i64 as Wire>::read(buf, p1) {
                None => None,
                Some((now_secs, p2)) => match read_opt::<i32>(buf, p2) {
                None => None,
                Some((created_mins_west, p3)) => match read_opt::<i32>(buf, p3) {
                None => None,
                Some((now_mins_west, p4)) => match read_opt::<u8>(buf, p4) {
                None => None,
                Some((rollover_hour, p5)) => {
                let x = SchedTimingTodayIn { created_secs, now_secs, created_mins_west, now_mins_west, rollover_hour };
                proof {
                    assert(buf@.skip(pos as int) =~= x.enc() + buf@.skip(p5 as int));
                    assert forall|v: Self, rest: Seq<u8>|
                        #[trigger] (v.enc() + rest) == buf@.skip(pos as int) implies x.enc() == v.enc() && buf@.skip(p5 as int) == rest by {
                        assert(x.enc() =~= v.enc());
                    }
                }
                Some((x, p5))
            },
            },
            },
            },
            },
            }
    }
}


/// A card's two templates, its field values and its ordinal.
pub struct RenderCardIn {
    pub question_template: Vec<u8>,
    pub answer_template: Vec<u8>,
    pub fields: Vec<FieldValue>,
    pub card_ordinal: u16,
}

impl WireEnc for RenderCardIn {
    open spec fn enc(&self) -> Seq<u8> {
        self.question_template.enc() + self.answer_template.enc() + enc_list(self.fields@) + self.card_ordinal.enc()
    }

    fn write(&self, out: &mut Vec<u8>) {
        self.question_template.write(out);
        self.answer_template.write(out);
        write_list(out, &self.fields);
        self.card_ordinal.write(out);
        assert(final(out)@ =~= old(out)@ + self.enc());
    }
}

impl Wire for RenderCardIn {
    #[verifier::rlimit(60)]
    #[verifier::spinoff_prover]
    fn read(buf: &[u8], pos: usize) -> (r: Option<(Self, usize)>) {
        proof {
            assert forall|v: Self, rest: Seq<u8>|
                #[trigger] (v.enc() + rest) == buf@.skip(pos as int) implies v.question_template.enc() + (v.answer_template.enc() + (enc_list(v.fields@) + (v.card_ordinal.enc() + (rest)))) == buf@.skip(pos as int) && v.fields@.len() <= u64::MAX by {
                assert(v.enc() + rest =~= v.question_template.enc() + (v.answer_template.enc() + (enc_list(v.fields@) + (v.card_ordinal.enc() + (rest)))));
                assert(v.fields.len() <= u64::MAX);
            }
        }
        match <Vec<u8> as Wire>::read(buf, pos) {
                None => None,
                Some((question_template, p1)) => match <Vec<u8> as Wire>::read(buf, p1) {
                None => None,
                Some((answer_template, p2)) => match read_list::<FieldValue>(buf, p2) {
                None => None,
                Some((fields, p3)) => match <u16 as Wire>::read(buf, p3) {
                None => None,
                Some((card_ordinal, p4)) => {
                let x = RenderCardIn { question_template, answer_template, fields, card_ordinal };
                proof {
                    assert(buf@.skip(pos as int) =~= x.enc() + buf@.skip(p4 as int));
                    assert forall|v: Self, rest: Seq<u8>|
                        #[trigger] (v.enc() + rest) == buf@.skip(pos as int) implies x.enc() == v.enc() && buf@.skip(p4 as int) == rest by {
                        assert(x.enc() =~= v.enc());
                    }
                }
                Some((x, p4))
            },
            },
            },
            },
            }
    }
}


/// Text whose audio/video tags are to be listed and removed.  The
/// `question_side` flag is carried for the host but does not change the
/// extraction: the model grammar has no side-dependent tags.
pub struct ExtractAvTagsIn {
    pub text: Vec<u8>,
    pub question_side: bool,
}

impl WireEnc for ExtractAvTagsIn {
    open spec fn enc(&self) -> Seq<u8> {
        self.text.enc() + self.question_side.enc()
    }

    fn write(&self, out: &mut Vec<u8>) {
        self.text.write(out);
        self.question_side.write(out);
        assert(final(out)@ =~= old(out)@ + self.enc());
    }
}

impl Wire for ExtractAvTagsIn {
    fn read(buf: &[u8], pos: usize) -> (r: Option<(Self, usize)>) {
        proof {
            assert forall|v: Self, rest: Seq<u8>|
                #[trigger] (v.enc() + rest) == buf@.skip(pos as int) implies v.text.enc() + (v.question_side.enc() + (rest)) == buf@.skip(pos as int) by {
                assert(v.enc() + rest =~= v.text.enc() + (v.question_side.enc() + (rest)));

            }
        }
        match <Vec<u8> as Wire>::read(buf, pos) {
                None => None,
                Some((text, p1)) => match <bool as Wire>::read(buf, p1) {
                None => None,
                Some((question_side, p2)) => {
                let x = ExtractAvTagsIn { text, question_side };
                proof {
                    assert(buf@.skip(pos as int) =~= x.enc() + buf@.skip(p2 as int));
                    assert forall|v: Self, rest: Seq<u8>|
                        #[trigger] (v.enc() + rest) == buf@.skip(pos as int) implies x.enc() == v.enc() && buf@.skip(p2 as int) == rest by {
                        assert(x.enc() =~= v.enc());
                    }
                }
                Some((x, p2))
            },
            },
            }
    }
}


/// Text whose delimited formula runs are to be extracted.  `svg` picks
/// the image extension; `expand_clozes` is carried for the host but does
/// not change the extraction, since cloze expansion sits with the
/// template collaborator outside this layer.
pub struct ExtractLatexIn {
    pub text: Vec<u8>,
    pub svg: bool,
    pub expand_clozes: bool,
}

impl WireEnc for ExtractLatexIn {
    open spec fn enc(&self) -> Seq<u8> {
        self.text.enc() + self.svg.enc() + self.expand_clozes.enc()
    }

    fn write(&self, out: &mut Vec<u8>) {
        self.text.write(out);
        self.svg.write(out);
        self.expand_clozes.write(out);
        assert(final(out)@ =~= old(out)@ + self.enc());
    }
}

impl Wire for ExtractLatexIn {
    fn read(buf: &[u8], pos: usize) -> (r: Option<(Self, usize)>) {
        proof {
            assert forall|v: Self, rest: Seq<u8>|
                #[trigger] (v.enc() + rest) == buf@.skip(pos as int) implies v.text.enc() + (v.svg.enc() + (v.expand_clozes.enc() + (rest))) == buf@.skip(pos as int) by {
                assert(v.enc() + rest =~= v.text.enc() + (v.svg.enc() + (v.expand_clozes.enc() + (rest))));

            }
        }
        match <Vec<u8> as Wire>::read(buf, pos) {
                None => None,
                Some((text, p1)) => match <bool as Wire>::read(buf, p1) {
                None => None,
                Some((svg, p2)) => match <bool as Wire>::read(buf, p2) {
                None => None,
                Some((expand_clozes, p3)) => {
                let x = ExtractLatexIn { text, svg, expand_clozes };
                proof {
                    assert(buf@.skip(pos as int) =~= x.enc() + buf@.skip(p3 as int));
                    assert forall|v: Self, rest: Seq<u8>|
                        #[trigger] (v.enc() + rest) == buf@.skip(pos as int) implies x.enc() == v.enc() && buf@.skip(p3 as int) == rest by {
                        assert(x.enc() =~= v.enc());
                    }
                }
                Some((x, p3))
            },
            },
            },
            }
    }
}


/// A file to store in the media folder.
pub struct AddMediaFileIn {
    pub desired_name: Vec<u8>,
    pub data: Vec<u8>,
}

impl WireEnc for AddMediaFileIn {
    open spec fn enc(&self) -> Seq<u8> {
        self.desired_name.enc() + self.data.enc()
    }

    fn write(&self, out: &mut Vec<u8>) {
        self.desired_name.write(out);
        self.data.write(out);
        assert(final(out)@ =~= old(out)@ + self.enc());
    }
}

impl Wire for AddMediaFileIn {
    fn read(buf: &[u8], pos: usize) -> (r: Option<(Self, usize)>) {
        proof {
            assert forall|v: Self, rest: Seq<u8>|
                #[trigger] (v.enc() + rest) == buf@.skip(pos as int) implies v.desired_name.enc() + (v.data.enc() + (rest)) == buf@.skip(pos as int) by {
                assert(v.enc() + rest =~= v.desired_name.enc() + (v.data.enc() + (rest)));

            }
        }
        match <Vec<u8> as Wire>::read(buf, pos) {
                None => None,
                Some((desired_name, p1)) => match <Vec<u8> as Wire>::read(buf, p1) {
                None => None,
                Some((data, p2)) => {
                let x = AddMediaFileIn { desired_name, data };
                proof {
                    assert(buf@.skip(pos as int) =~= x.enc() + buf@.skip(p2 as int));
                    assert forall|v: Self, rest: Seq<u8>|
                        #[trigger] (v.enc() + rest) == buf@.skip(pos as int) implies x.enc() == v.enc() && buf@.skip(p2 as int) == rest by {
                        assert(x.enc() =~= v.enc());
                    }
                }
                Some((x, p2))
            },
            },
            }
    }
}


/// Credentials and endpoint of a media synchronisation.
pub struct SyncMediaIn {
    pub hkey: Vec<u8>,
    pub endpoint: Vec<u8>,
}

impl WireEnc for SyncMediaIn {
    open spec fn enc(&self) -> Seq<u8> {
        self.hkey.enc() + self.endpoint.enc()
    }

    fn write(&self, out: &mut Vec<u8>) {
        self.hkey.write(out);
        self.endpoint.write(out);
        assert(final(out)@ =~= old(out)@ + self.enc());
    }
}

impl Wire for SyncMediaIn {
    fn read(buf: &[u8], pos: usize) -> (r: Option<(Self, usize)>) {
        proof {
            assert forall|v: Self, rest: Seq<u8>|
                #[trigger] (v.enc() + rest) == buf@.skip(pos as int) implies v.hkey.enc() + (v.endpoint.enc() + (rest)) == buf@.skip(pos as int) by {
                assert(v.enc() + rest =~= v.hkey.enc() + (v.endpoint.enc() + (rest)));

            }
        }
        match <Vec<u8> as Wire>::read(buf, pos) {
                None => None,
                Some((hkey, p1)) => match <Vec<u8> as Wire>::read(buf, p1) {
                None => None,
                Some((endpoint, p2)) => {
                let x = SyncMediaIn { hkey, endpoint };
                proof {
                    assert(buf@.skip(pos as int) =~= x.enc() + buf@.skip(p2 as int));
                    assert forall|v: Self, rest: Seq<u8>|
                        #[trigger] (v.enc() + rest) == buf@.skip(pos as int) implies x.enc() == v.enc() && buf@.skip(p2 as int) == rest by {
                        assert(x.enc() =~= v.enc());
                    }
                }
                Some((x, p2))
            },
            },
            }
    }
}


/// Media files to move to the trash.
pub struct TrashMediaFilesIn {
    pub fnames: Vec<Vec<u8>>,
}

impl WireEnc for TrashMediaFilesIn {
    open spec fn enc(&self) -> Seq<u8> {
        enc_list(self.fnames@)
    }

    fn write(&self, out: &mut Vec<u8>) {
        write_list(out, &self.fnames);
        assert(final(out)@ =~= old(out)@ + self.enc());
    }
}

impl Wire for TrashMediaFilesIn {
    fn read(buf: &[u8], pos: usize) -> (r: Option<(Self, usize)>) {
        proof {
            assert forall|v: Self, rest: Seq<u8>|
                #[trigger] (v.enc() + rest) == buf@.skip(pos as int) implies enc_list(v.fnames@) + (rest) == buf@.skip(pos as int) && v.fnames@.len() <= u64::MAX by {
                assert(v.enc() + rest =~= enc_list(v.fnames@) + (rest));
                assert(v.fnames.len() <= u64::MAX);
            }
        }
        match read_list::<Vec<u8>>(buf, pos) {
                None => None,
                Some((fnames, p1)) => {
                let x = TrashMediaFilesIn { fnames };
                proof {
                    assert(buf@.skip(pos as int) =~= x.enc() + buf@.skip(p1 as int));
                    assert forall|v: Self, rest: Seq<u8>|
                        #[trigger] (v.enc() + rest) == buf@.skip(pos as int) implies x.enc() == v.enc() && buf@.skip(p1 as int) == rest by {
                        assert(x.enc() =~= v.enc());
                    }
                }
                Some((x, p1))
            },
            }
    }
}


/// A message key and its named arguments.
pub struct TranslateStringIn {
    pub key: u32,
    pub args: Vec<TranslateArg>,
}

impl WireEnc for TranslateStringIn {
    open spec fn enc(&self) -> Seq<u8> {
        self.key.enc() + enc_list(self.args@)
    }

    fn write(&self, out: &mut Vec<u8>) {
        self.key.write(out);
        write_list(out, &self.args);
        assert(final(out)@ =~= old(out)@ + self.enc());
    }
}

impl Wire for TranslateStringIn {
    #[verifier::rlimit(60)]
    #[verifier::spinoff_prover]
    fn read(buf: &[u8], pos: usize) -> (r: Option<(Self, usize)>) {
        proof {
            assert forall|v: Self, rest: Seq<u8>|
                #[trigger] (v.enc() + rest) == buf@.skip(pos as int) implies v.key.enc() + (enc_list(v.args@) + (rest)) == buf@.skip(pos as int) && v.args@.len() <= u64::MAX by {
                assert(v.enc() + rest =~= v.key.enc() + (enc_list(v.args@) + (rest)));
                assert(v.args.len() <= u64::MAX);
            }
        }
        match <u32 as Wire>::read(buf, pos) {
                None => None,
                Some((key, p1)) => match read_list::<TranslateArg>(buf, p1) {
                None => None,
                Some((args, p2)) => {
                let x = TranslateStringIn { key, args };
                proof {
                    assert(buf@.skip(pos as int) =~= x.enc() + buf@.skip(p2 as int));
                    assert forall|v: Self, rest: Seq<u8>|
                        #[trigger] (v.enc() + rest) == buf@.skip(pos as int) implies x.enc() == v.enc() && buf@.skip(p2 as int) == rest by {
                        assert(x.enc() =~= v.enc());
                    }
                }
                Some((x, p2))
            },
            },
            }
    }
}


/// A span in seconds and the display context it is formatted for.
pub struct FormatTimeSpanIn {
    pub seconds: u32,
    pub context: u32,
}

impl WireEnc for FormatTimeSpanIn {
    open spec fn enc(&self) -> Seq<u8> {
        self.seconds.enc() + self.context.enc()
    }

    fn write(&self, out: &mut Vec<u8>) {
        self.seconds.write(out);
        self.context.write(out);
        assert(final(out)@ =~= old(out)@ + self.enc());
    }
}

impl Wire for FormatTimeSpanIn {
    fn read(buf: &[u8], pos: usize) -> (r: Option<(Self, usize)>) {
        proof {
            assert forall|v: Self, rest: Seq<u8>|
                #[trigger] (v.enc() + rest) == buf@.skip(pos as int) implies v.seconds.enc() + (v.context.enc() + (rest)) == buf@.skip(pos as int) by {
                assert(v.enc() + rest =~= v.seconds.enc() + (v.context.enc() + (rest)));

            }
        }
        match <u32 as Wire>::read(buf, pos) {
                None => None,
                Some((seconds, p1)) => match <u32 as Wire>::read(buf, p1) {
                None => None,
                Some((context, p2)) => {
                let x = FormatTimeSpanIn { seconds, context };
                proof {
                    assert(buf@.skip(pos as int) =~= x.enc() + buf@.skip(p2 as int));
                    assert forall|v: Self, rest: Seq<u8>|
                        #[trigger] (v.enc() + rest) == buf@.skip(pos as int) implies x.enc() == v.enc() && buf@.skip(p2 as int) == rest by {
                        assert(x.enc() =~= v.enc());
                    }
                }
                Some((x, p2))
            },
            },
            }
    }
}


/// Counts behind the daily study summary line.
pub struct StudiedTodayIn {
    pub cards: u32,
    pub seconds: u32,
}

impl WireEnc for StudiedTodayIn {
    open spec fn enc(&self) -> Seq<u8> {
        self.cards.enc() + self.seconds.enc()
    }

    fn write(&self, out: &mut Vec<u8>) {
        self.cards.write(out);
        self.seconds.write(out);
        assert(final(out)@ =~= old(out)@ + self.enc());
    }
}

impl Wire for StudiedTodayIn {
    fn read(buf: &[u8], pos: usize) -> (r: Option<(Self, usize)>) {
        proof {
            assert forall|v: Self, rest: Seq<u8>|
                #[trigger] (v.enc() + rest) == buf@.skip(pos as int) implies v.cards.enc() + (v.seconds.enc() + (rest)) == buf@.skip(pos as int) by {
                assert(v.enc() + rest =~= v.cards.enc() + (v.seconds.enc() + (rest)));

            }
        }
        match <u32 as Wire>::read(buf, pos) {
                None => None,
                Some((cards, p1)) => match <u32 as Wire>::read(buf, p1) {
                None => None,
                Some((seconds, p2)) => {
                let x = StudiedTodayIn { cards, seconds };
                proof {
                    assert(buf@.skip(pos as int) =~= x.enc() + buf@.skip(p2 as int));
                    assert forall|v: Self, rest: Seq<u8>|
                        #[trigger] (v.enc() + rest) == buf@.skip(pos as int) implies x.enc() == v.enc() && buf@.skip(p2 as int) == rest by {
                        assert(x.enc() =~= v.enc());
                    }
                }
                Some((x, p2))
            },
            },
            }
    }
}


/// Counts behind the learning-finished congratulations line.
pub struct CongratsLearnMsgIn {
    pub next_due: u32,
    pub remaining: u32,
}

impl WireEnc for CongratsLearnMsgIn {
    open spec fn enc(&self) -> Seq<u8> {
        self.next_due.enc() + self.remaining.enc()
    }

    fn write(&self, out: &mut Vec<u8>) {
        self.next_due.write(out);
        self.remaining.write(out);
        assert(final(out)@ =~= old(out)@ + self.enc());
    }
}

impl Wire for CongratsLearnMsgIn {
    fn read(buf: &[u8], pos: usize) -> (r: Option<(Self, usize)>) {
        proof {
            assert forall|v: Self, rest: Seq<u8>|
                #[trigger] (v.enc() + rest) == buf@.skip(pos as int) implies v.next_due.enc() + (v.remaining.enc() + (rest)) == buf@.skip(pos as int) by {
                assert(v.enc() + rest =~= v.next_due.enc() + (v.remaining.enc() + (rest)));

            }
        }
        match <u32 as Wire>::read(buf, pos) {
                None => None,
                Some((next_due, p1)) => match <u32 as Wire>::read(buf, p1) {
                None => None,
                Some((remaining, p2)) => {
                let x = CongratsLearnMsgIn { next_due, remaining };
                proof {
                    assert(buf@.skip(pos as int) =~= x.enc() + buf@.skip(p2 as int));
                    assert forall|v: Self, rest: Seq<u8>|
                        #[trigger] (v.enc() + rest) == buf@.skip(pos as int) implies x.enc() == v.enc() && buf@.skip(p2 as int) == rest by {
                        assert(x.enc() =~= v.enc());
                    }
                }
                Some((x, p2))
            },
            },
            }
    }
}


/// Paths of the collection to open.  The log path is carried for the
/// host; logging itself stays outside this layer, so the field does not
/// change what is opened.
pub struct OpenCollectionIn {
    pub collection_path: Vec<u8>,
    pub media_folder_path: Vec<u8>,
    pub media_db_path: Vec<u8>,
    pub log_path: Vec<u8>,
}

impl WireEnc for OpenCollectionIn {
    open spec fn enc(&self) -> Seq<u8> {
        self.collection_path.enc() + self.media_folder_path.enc() + self.media_db_path.enc() + self.log_path.enc()
    }

    fn write(&self, out: &mut Vec<u8>) {
        self.collection_path.write(out);
        self.media_folder_path.write(out);
        self.media_db_path.write(out);
        self.log_path.write(out);
        assert(final(out)@ =~= old(out)@ + self.enc());
    }
}

impl Wire for OpenCollectionIn {
    #[verifier::rlimit(60)]
    #[verifier::spinoff_prover]
    fn read(buf: &[u8], pos: usize) -> (r: Option<(Self, usize)>) {
        proof {
            assert forall|v: Self, rest: Seq<u8>|
                #[trigger] (v.enc() + rest) == buf@.skip(pos as int) implies v.collection_path.enc() + (v.media_folder_path.enc() + (v.media_db_path.enc() + (v.log_path.enc() + (rest)))) == buf@.skip(pos as int) by {
                assert(v.enc() + rest =~= v.collection_path.enc() + (v.media_folder_path.enc() + (v.media_db_path.enc() + (v.log_path.enc() + (rest)))));

            }
        }
        match <Vec<u8> as Wire>::read(buf, pos) {
                None => None,
                Some((collection_path, p1)) => match <Vec<u8> as Wire>::read(buf, p1) {
                None => None,
                Some((media_folder_path, p2)) => match <Vec<u8> as Wire>::read(buf, p2) {
                None => None,
                Some((media_db_path, p3)) => match <Vec<u8> as Wire>::read(buf, p3) {
                None => None,
                Some((log_path, p4)) => {
                let x = OpenCollectionIn { collection_path, media_folder_path, media_db_path, log_path };
                proof {
                    assert(buf@.skip(pos as int) =~= x.enc() + buf@.skip(p4 as int));
                    assert forall|v: Self, rest: Seq<u8>|
                        #[trigger] (v.enc() + rest) == buf@.skip(pos as int) implies x.enc() == v.enc() && buf@.skip(p4 as int) == rest by {
                        assert(x.enc() =~= v.enc());
                    }
                }
                Some((x, p4))
            },
            },
            },
            },
            }
    }
}


/// A builtin sort column and its direction.
pub struct BuiltinSortOrder {
    pub kind: u32,
    pub reverse: bool,
}

impl WireEnc for BuiltinSortOrder {
    open spec fn enc(&self) -> Seq<u8> {
        self.kind.enc() + self.reverse.enc()
    }

    fn write(&self, out: &mut Vec<u8>) {
        self.kind.write(out);
        self.reverse.write(out);
        assert(final(out)@ =~= old(out)@ + self.enc());
    }
}

impl Wire for BuiltinSortOrder {
    fn read(buf: &[u8], pos: usize) -> (r: Option<(Self, usize)>) {
        proof {
            assert forall|v: Self, rest: Seq<u8>|
                #[trigger] (v.enc() + rest) == buf@.skip(pos as int) implies v.kind.enc() + (v.reverse.enc() + (rest)) == buf@.skip(pos as int) by {
                assert(v.enc() + rest =~= v.kind.enc() + (v.reverse.enc() + (rest)));

            }
        }
        match <u32 as Wire>::read(buf, pos) {
                None => None,
                Some((kind, p1)) => match <bool as Wire>::read(buf, p1) {
                None => None,
                Some((reverse, p2)) => {
                let x = BuiltinSortOrder { kind, reverse };
                proof {
                    assert(buf@.skip(pos as int) =~= x.enc() + buf@.skip(p2 as int));
                    assert forall|v: Self, rest: Seq<u8>|
                        #[trigger] (v.enc() + rest) == buf@.skip(pos as int) implies x.enc() == v.enc() && buf@.skip(p2 as int) == rest by {
                        assert(x.enc() =~= v.enc());
                    }
                }
                Some((x, p2))
            },
            },
            }
    }
}


/// How search results are ordered.
pub enum SortOrder {
    NoOrder,
    Custom(Vec<u8>),
    FromConfig,
    Builtin(BuiltinSortOrder),
}

impl WireEnc for SortOrder {
    open spec fn enc(&self) -> Seq<u8> {
        match self {
            SortOrder::NoOrder => enc_u64(1),
            SortOrder::Custom(x) => enc_u64(2) + x.enc(),
            SortOrder::FromConfig => enc_u64(3),
            SortOrder::Builtin(x) => enc_u64(4) + x.enc(),
        }
    }

    fn write(&self, out: &mut Vec<u8>) {
        match self {
            SortOrder::NoOrder => {
                crate::codec::write_u64(out, 1);
            },
            SortOrder::Custom(x) => {
                crate::codec::write_u64(out, 2);
                x.write(out);
            },
            SortOrder::FromConfig => {
                crate::codec::write_u64(out, 3);
            },
            SortOrder::Builtin(x) => {
                crate::codec::write_u64(out, 4);
                x.write(out);
            },
        }
        assert(final(out)@ =~= old(out)@ + self.enc());
    }
}

impl Wire for SortOrder {
    fn read(buf: &[u8], pos: usize) -> (r: Option<(Self, usize)>) {
        proof {
            assert forall|v: Self, rest: Seq<u8>|
                #[trigger] (v.enc() + rest) == buf@.skip(pos as int) implies match v {
                SortOrder::NoOrder => enc_u64(1) + rest == buf@.skip(pos as int),
                SortOrder::Custom(x) => enc_u64(2) + (x.enc() + rest) == buf@.skip(pos as int),
                SortOrder::FromConfig => enc_u64(3) + rest == buf@.skip(pos as int),
                SortOrder::Builtin(x) => enc_u64(4) + (x.enc() + rest) == buf@.skip(pos as int),
            } by {
                match v {
                    SortOrder::NoOrder => { assert(v.enc() + rest =~= enc_u64(1) + rest); },
                    SortOrder::Custom(x) => { assert(v.enc() + rest =~= enc_u64(2) + (x.enc() + rest)); },
                    SortOrder::FromConfig => { assert(v.enc() + rest =~= enc_u64(3) + rest); },
                    SortOrder::Builtin(x) => { assert(v.enc() + rest =~= enc_u64(4) + (x.enc() + rest)); },
                }
            }
        }
        match crate::codec::read_u64(buf, pos) {
            Some((1u64, p1)) => {
                let x = SortOrder::NoOrder;
                proof {
                    assert(buf@.skip(pos as int) =~= x.enc() + buf@.skip(p1 as int));
                    assert forall|v: Self, rest: Seq<u8>|
                        #[trigger] (v.enc() + rest) == buf@.skip(pos as int) implies x.enc() == v.enc() && buf@.skip(p1 as int) == rest by {
                        assert(x.enc() =~= v.enc());
                    }
                }
                Some((x, p1))
            },
            Some((2u64, p1)) => match <Vec<u8> as Wire>::read(buf, p1) {
                None => None,
                Some((y, p2)) => {
                    let x = SortOrder::Custom(y);
                    proof {
                        assert(buf@.skip(pos as int) =~= x.enc() + buf@.skip(p2 as int));
                        assert forall|v: Self, rest: Seq<u8>|
                            #[trigger] (v.enc() + rest) == buf@.skip(pos as int) implies x.enc() == v.enc() && buf@.skip(p2 as int) == rest by {
                            assert(x.enc() =~= v.enc());
                        }
                    }
                    Some((x, p2))
                },
            },
            Some((3u64, p1)) => {
                let x = SortOrder::FromConfig;
                proof {
                    assert(buf@.skip(pos as int) =~= x.enc() + buf@.skip(p1 as int));
                    assert forall|v: Self, rest: Seq<u8>|
                        #[trigger] (v.enc() + rest) == buf@.skip(pos as int) implies x.enc() == v.enc() && buf@.skip(p1 as int) == rest by {
                        assert(x.enc() =~= v.enc());
                    }
                }
                Some((x, p1))
            },
            Some((4u64, p1)) => match <BuiltinSortOrder as Wire>::read(buf, p1) {
                None => None,
                Some((y, p2)) => {
                    let x = SortOrder::Builtin(y);
                    proof {
                        assert(buf@.skip(pos as int) =~= x.enc() + buf@.skip(p2 as int));
                        assert forall|v: Self, rest: Seq<u8>|
                            #[trigger] (v.enc() + rest) == buf@.skip(pos as int) implies x.enc() == v.enc() && buf@.skip(p2 as int) == rest by {
                            assert(x.enc() =~= v.enc());
                        }
                    }
                    Some((x, p2))
                },
            },
            _ => None,
        }
    }
}


/// A card search and its result order.
pub struct SearchCardsIn {
    pub search: Vec<u8>,
    pub order: SortOrder,
}

impl WireEnc for SearchCardsIn {
    open spec fn enc(&self) -> Seq<u8> {
        self.search.enc() + self.order.enc()
    }

    fn write(&self, out: &mut Vec<u8>) {
        self.search.write(out);
        self.order.write(out);
        assert(final(out)@ =~= old(out)@ + self.enc());
    }
}

impl Wire for SearchCardsIn {
    fn read(buf: &[u8], pos: usize) -> (r: Option<(Self, usize)>) {
        proof {
            assert forall|v: Self, rest: Seq<u8>|
                #[trigger] (v.enc() + rest) == buf@.skip(pos as int) implies v.search.enc() + (v.order.enc() + (rest)) == buf@.skip(pos as int) by {
                assert(v.enc() + rest =~= v.search.enc() + (v.order.enc() + (rest)));

            }
        }
        match <Vec<u8> as Wire>::read(buf, pos) {
                None => None,
                Some((search, p1)) => match <SortOrder as Wire>::read(buf, p1) {
                None => None,
                Some((order, p2)) => {
                let x = SearchCardsIn { search, order };
                proof {
                    assert(buf@.skip(pos as int) =~= x.enc() + buf@.skip(p2 as int));
                    assert forall|v: Self, rest: Seq<u8>|
                        #[trigger] (v.enc() + rest) == buf@.skip(pos as int) implies x.enc() == v.enc() && buf@.skip(p2 as int) == rest by {
                        assert(x.enc() =~= v.enc());
                    }
                }
                Some((x, p2))
            },
            },
            }
    }
}


/// A note search.
pub struct SearchNotesIn {
    pub search: Vec<u8>,
}

impl WireEnc for SearchNotesIn {
    open spec fn enc(&self) -> Seq<u8> {
        self.search.enc()
    }

    fn write(&self, out: &mut Vec<u8>) {
        self.search.write(out);
        assert(final(out)@ =~= old(out)@ + self.enc());
    }
}

impl Wire for SearchNotesIn {
    fn read(buf: &[u8], pos: usize) -> (r: Option<(Self, usize)>) {
        proof {
            assert forall|v: Self, rest: Seq<u8>|
                #[trigger] (v.enc() + rest) == buf@.skip(pos as int) implies v.search.enc() + (rest) == buf@.skip(pos as int) by {
                assert(v.enc() + rest =~= v.search.enc() + (rest));

            }
        }
        match <Vec<u8> as Wire>::read(buf, pos) {
                None => None,
                Some((search, p1)) => {
                let x = SearchNotesIn { search };
                proof {
                    assert(buf@.skip(pos as int) =~= x.enc() + buf@.skip(p1 as int));
                    assert forall|v: Self, rest: Seq<u8>|
                        #[trigger] (v.enc() + rest) == buf@.skip(pos as int) implies x.enc() == v.enc() && buf@.skip(p1 as int) == rest by {
                        assert(x.enc() =~= v.enc());
                    }
                }
                Some((x, p1))
            },
            }
    }
}


/// A card as it crosses the boundary; `ctype` and `queue` are validated
/// before the card reaches storage.
pub struct WireCard {
    pub id: i64,
    pub nid: i64,
    pub did: i64,
    pub ord: u32,
    pub mtime: i64,
    pub usn: i32,
    pub ctype: u32,
    pub queue: i32,
    pub due: i32,
    pub ivl: u32,
    pub factor: u32,
    pub reps: u32,
    pub lapses: u32,
    pub left: u32,
    pub odue: i32,
    pub odid: i64,
    pub flags: u32,
    pub data: Vec<u8>,
}

/// The card's integer fields, in wire order.
pub open spec fn card_ints(c: &WireCard) -> Seq<i64> {
    seq![c.id, c.nid, c.did, c.ord as i64, c.mtime, c.usn as i64, c.ctype as i64, c.queue as i64, c.due as i64, c.ivl as i64, c.factor as i64, c.reps as i64, c.lapses as i64, c.left as i64, c.odue as i64, c.odid, c.flags as i64]
}

impl WireEnc for WireCard {
    open spec fn enc(&self) -> Seq<u8> {
        enc_list(card_ints(self)) + self.data.enc()
    }

    fn write(&self, out: &mut Vec<u8>) {
        let mut ints: Vec<i64> = Vec::new();
        ints.push(self.id);
        ints.push(self.nid);
        ints.push(self.did);
        ints.push(self.ord as i64);
        ints.push(self.mtime);
        ints.push(self.usn as i64);
        ints.push(self.ctype as i64);
        ints.push(self.queue as i64);
        ints.push(self.due as i64);
        ints.push(self.ivl as i64);
        ints.push(self.factor as i64);
        ints.push(self.reps as i64);
        ints.push(self.lapses as i64);
        ints.push(self.left as i64);
        ints.push(self.odue as i64);
        ints.push(self.odid);
        ints.push(self.flags as i64);
        assert(ints@ =~= card_ints(self));
        write_list(out, &ints);
        self.data.write(out);
        assert(final(out)@ =~= old(out)@ + self.enc());
    }
}

proof fn lemma_nest_card(v: &WireCard, rest: Seq<u8>)
    ensures
        v.enc() + rest == enc_list(card_ints(v)) + (v.data.enc() + rest),
        card_ints(v).len() == 17,
        card_ints(v).len() <= u64::MAX,
{
    assert(v.enc() + rest =~= enc_list(card_ints(v)) + (v.data.enc() + rest));
}

impl Wire for WireCard {
    #[verifier::rlimit(60)]
    #[verifier::spinoff_prover]
    fn read(buf: &[u8], pos: usize) -> (r: Option<(Self, usize)>) {
        let (ints, p1) = match read_i64_list(buf, pos) {
            Some(z) => z,
            None => {
                proof {
                    assert forall|v: Self, rest: Seq<u8>|
                        #[trigger] (v.enc() + rest) != buf@.skip(pos as int) by {
                        if (v.enc() + rest) == buf@.skip(pos as int) {
                            lemma_nest_card(&v, rest);
                        }
                    }
                }
                return None;
            },
        };
        if ints.len() != 17 {
            proof {
                assert forall|v: Self, rest: Seq<u8>|
                    #[trigger] (v.enc() + rest) != buf@.skip(pos as int) by {
                    if (v.enc() + rest) == buf@.skip(pos as int) {
                        lemma_nest_card(&v, rest);
                        assert(ints@ == card_ints(&v));
                    }
                }
            }
            return None;
        }
        let (data, p2) = match <Vec<u8> as Wire>::read(buf, p1) {
            Some(z) => z,
            None => {
                proof {
                    assert forall|v: Self, rest: Seq<u8>|
                        #[trigger] (v.enc() + rest) != buf@.skip(pos as int) by {
                        if (v.enc() + rest) == buf@.skip(pos as int) {
                            lemma_nest_card(&v, rest);
                            assert(buf@.skip(p1 as int) == v.data.enc() + rest);
                        }
                    }
                }
                return None;
            },
        };
        if !(0 <= ints[3] && ints[3] <= u32::MAX as i64 && i32::MIN as i64 <= ints[5] && ints[5] <= i32::MAX as i64 && 0 <= ints[6] && ints[6] <= u32::MAX as i64 && i32::MIN as i64 <= ints[7] && ints[7] <= i32::MAX as i64 && i32::MIN as i64 <= ints[8] && ints[8] <= i32::MAX as i64 && 0 <= ints[9] && ints[9] <= u32::MAX as i64 && 0 <= ints[10] && ints[10] <= u32::MAX as i64 && 0 <= ints[11] && ints[11] <= u32::MAX as i64 && 0 <= ints[12] && ints[12] <= u32::MAX as i64 && 0 <= ints[13] && ints[13] <= u32::MAX as i64 && i32::MIN as i64 <= ints[14] && ints[14] <= i32::MAX as i64 && 0 <= ints[16] && ints[16] <= u32::MAX as i64) {
            proof {
                assert forall|v: Self, rest: Seq<u8>|
                    #[trigger] (v.enc() + rest) != buf@.skip(pos as int) by {
                    if (v.enc() + rest) == buf@.skip(pos as int) {
                        lemma_nest_card(&v, rest);
                        assert(ints@ == card_ints(&v));
                        assert(ints@[3] == v.ord as i64);
                        assert(ints@[5] == v.usn as i64);
                        assert(ints@[6] == v.ctype as i64);
                        assert(ints@[7] == v.queue as i64);
                        assert(ints@[8] == v.due as i64);
                        assert(ints@[9] == v.ivl as i64);
                        assert(ints@[10] == v.factor as i64);
                        assert(ints@[11] == v.reps as i64);
                        assert(ints@[12] == v.lapses as i64);
                        assert(ints@[13] == v.left as i64);
                        assert(ints@[14] == v.odue as i64);
                        assert(ints@[16] == v.flags as i64);
                    }
                }
            }
            return None;
        }
        let x = WireCard { id: ints[0], nid: ints[1], did: ints[2], ord: ints[3] as u32, mtime: ints[4], usn: ints[5] as i32, ctype: ints[6] as u32, queue: ints[7] as i32, due: ints[8] as i32, ivl: ints[9] as u32, factor: ints[10] as u32, reps: ints[11] as u32, lapses: ints[12] as u32, left: ints[13] as u32, odue: ints[14] as i32, odid: ints[15], flags: ints[16] as u32, data };
        proof {
            assert(card_ints(&x) =~= ints@);
            assert(buf@.skip(pos as int) =~= x.enc() + buf@.skip(p2 as int));
            assert forall|v: Self, rest: Seq<u8>|
                #[trigger] (v.enc() + rest) == buf@.skip(pos as int) implies x.enc() == v.enc() && buf@.skip(p2 as int) == rest by {
                lemma_nest_card(&v, rest);
                assert(ints@ == card_ints(&v));
                assert(buf@.skip(p1 as int) == v.data.enc() + rest);
                assert(x.enc() =~= v.enc());
            }
        }
        Some((x, p2))
    }
}




/// The initialisation message: language preferences and engine mode.
pub struct BackendInit {
    pub preferred_langs: Vec<Vec<u8>>,
    pub locale_folder_path: Vec<u8>,
    pub server: bool,
}

impl WireEnc for BackendInit {
    open spec fn enc(&self) -> Seq<u8> {
        enc_list(self.preferred_langs@) + self.locale_folder_path.enc() + self.server.enc()
    }

    fn write(&self, out: &mut Vec<u8>) {
        write_list(out, &self.preferred_langs);
        self.locale_folder_path.write(out);
        self.server.write(out);
        assert(final(out)@ =~= old(out)@ + self.enc());
    }
}

impl Wire for BackendInit {
    fn read(buf: &[u8], pos: usize) -> (r: Option<(Self, usize)>) {
        proof {
            assert forall|v: Self, rest: Seq<u8>|
                #[trigger] (v.enc() + rest) == buf@.skip(pos as int) implies enc_list(v.preferred_langs@) + (v.locale_folder_path.enc() + (v.server.enc() + (rest))) == buf@.skip(pos as int) && v.preferred_langs@.len() <= u64::MAX by {
                assert(v.enc() + rest =~= enc_list(v.preferred_langs@) + (v.locale_folder_path.enc() + (v.server.enc() + (rest))));
                assert(v.preferred_langs.len() <= u64::MAX);
            }
        }
        match read_list::<Vec<u8>>(buf, pos) {
                None => None,
                Some((preferred_langs, p1)) => match <Vec<u8> as Wire>::read(buf, p1) {
                None => None,
                Some((locale_folder_path, p2)) => match <bool as Wire>::read(buf, p2) {
                None => None,
                Some((server, p3)) => {
                let x = BackendInit { preferred_langs, locale_folder_path, server };
                proof {
                    assert(buf@.skip(pos as int) =~= x.enc() + buf@.skip(p3 as int));
                    assert forall|v: Self, rest: Seq<u8>|
                        #[trigger] (v.enc() + rest) == buf@.skip(pos as int) implies x.enc() == v.enc() && buf@.skip(p3 as int) == rest by {
                        assert(x.enc() =~= v.enc());
                    }
                }
                Some((x, p3))
            },
            },
            },
            }
    }
}


/// The request envelope: exactly one operation with its arguments.
pub enum BackendInput {
    TemplateRequirements(TemplateRequirementsIn),
    SchedTimingToday(SchedTimingTodayIn),
    RenderCard(RenderCardIn),
    LocalMinutesWest(i64),
    StripAvTags(Vec<u8>),
    ExtractAvTags(ExtractAvTagsIn),
    ExtractLatex(ExtractLatexIn),
    AddMediaFile(AddMediaFileIn),
    SyncMedia(SyncMediaIn),
    CheckMedia,
    TrashMediaFiles(TrashMediaFilesIn),
    TranslateString(TranslateStringIn),
    FormatTimeSpan(FormatTimeSpanIn),
    StudiedToday(StudiedTodayIn),
    CongratsLearnMsg(CongratsLearnMsgIn),
    EmptyTrash,
    RestoreTrash,
    OpenCollection(OpenCollectionIn),
    CloseCollection,
    SearchCards(SearchCardsIn),
    SearchNotes(SearchNotesIn),
    GetCard(i64),
    UpdateCard(WireCard),
    AddCard(WireCard),
}

impl WireEnc for BackendInput {
    open spec fn enc(&self) -> Seq<u8> {
        match self {
            BackendInput::TemplateRequirements(x) => enc_u64(1) + x.enc(),
            BackendInput::SchedTimingToday(x) => enc_u64(2) + x.enc(),
            BackendInput::RenderCard(x) => enc_u64(3) + x.enc(),
            BackendInput::LocalMinutesWest(x) => enc_u64(4) + x.enc(),
            BackendInput::StripAvTags(x) => enc_u64(5) + x.enc(),
            BackendInput::ExtractAvTags(x) => enc_u64(6) + x.enc(),
            BackendInput::ExtractLatex(x) => enc_u64(7) + x.enc(),
            BackendInput::AddMediaFile(x) => enc_u64(8) + x.enc(),
            BackendInput::SyncMedia(x) => enc_u64(9) + x.enc(),
            BackendInput::CheckMedia => enc_u64(10),
            BackendInput::TrashMediaFiles(x) => enc_u64(11) + x.enc(),
            BackendInput::TranslateString(x) => enc_u64(12) + x.enc(),
            BackendInput::FormatTimeSpan(x) => enc_u64(13) + x.enc(),
            BackendInput::StudiedToday(x) => enc_u64(14) + x.enc(),
            BackendInput::CongratsLearnMsg(x) => enc_u64(15) + x.enc(),
            BackendInput::EmptyTrash => enc_u64(16),
            BackendInput::RestoreTrash => enc_u64(17),
            BackendInput::OpenCollection(x) => enc_u64(18) + x.enc(),
            BackendInput::CloseCollection => enc_u64(19),
            BackendInput::SearchCards(x) => enc_u64(20) + x.enc(),
            BackendInput::SearchNotes(x) => enc_u64(21) + x.enc(),
            BackendInput::GetCard(x) => enc_u64(22) + x.enc(),
            BackendInput::UpdateCard(x) => enc_u64(23) + x.enc(),
            BackendInput::AddCard(x) => enc_u64(24) + x.enc(),
        }
    }

    fn write(&self, out: &mut Vec<u8>) {
        match self {
            BackendInput::TemplateRequirements(x) => {
                crate::codec::write_u64(out, 1);
                x.write(out);
            },
            BackendInput::SchedTimingToday(x) => {
                crate::codec::write_u64(out, 2);
                x.write(out);
            },
            BackendInput::RenderCard(x) => {
                crate::codec::write_u64(out, 3);
                x.write(out);
            },
            BackendInput::LocalMinutesWest(x) => {
                crate::codec::write_u64(out, 4);
                x.write(out);
            },
            BackendInput::StripAvTags(x) => {
                crate::codec::write_u64(out, 5);
                x.write(out);
            },
            BackendInput::ExtractAvTags(x) => {
                crate::codec::write_u64(out, 6);
                x.write(out);
            },
            BackendInput::ExtractLatex(x) => {
                crate::codec::write_u64(out, 7);
                x.write(out);
            },
            BackendInput::AddMediaFile(x) => {
                crate::codec::write_u64(out, 8);
                x.write(out);
            },
            BackendInput::SyncMedia(x) => {
                crate::codec::write_u64(out, 9);
                x.write(out);
            },
            BackendInput::CheckMedia => {
                crate::codec::write_u64(out, 10);
            },
            BackendInput::TrashMediaFiles(x) => {
                crate::codec::write_u64(out, 11);
                x.write(out);
            },
            BackendInput::TranslateString(x) => {
                crate::codec::write_u64(out, 12);
                x.write(out);
            },
            BackendInput::FormatTimeSpan(x) => {
                crate::codec::write_u64(out, 13);
                x.write(out);
            },
            BackendInput::StudiedToday(x) => {
                crate::codec::write_u64(out, 14);
                x.write(out);
            },
            BackendInput::CongratsLearnMsg(x) => {
                crate::codec::write_u64(out, 15);
                x.write(out);
            },
            BackendInput::EmptyTrash => {
                crate::codec::write_u64(out, 16);
            },
            BackendInput::RestoreTrash => {
                crate::codec::write_u64(out, 17);
            },
            BackendInput::OpenCollection(x) => {
                crate::codec::write_u64(out, 18);
                x.write(out);
            },
            BackendInput::CloseCollection => {
                crate::codec::write_u64(out, 19);
            },
            BackendInput::SearchCards(x) => {
                crate::codec::write_u64(out, 20);
                x.write(out);
            },
            BackendInput::SearchNotes(x) => {
                crate::codec::write_u64(out, 21);
                x.write(out);
            },
            BackendInput::GetCard(x) => {
                crate::codec::write_u64(out, 22);
                x.write(out);
            },
            BackendInput::UpdateCard(x) => {
                crate::codec::write_u64(out, 23);
                x.write(out);
            },
            BackendInput::AddCard(x) => {
                crate::codec::write_u64(out, 24);
                x.write(out);
            },
        }
        assert(final(out)@ =~= old(out)@ + self.enc());
    }
}

proof fn lemma_nest_input(v: &BackendInput, rest: Seq<u8>)
    ensures
        match v {
            BackendInput::TemplateRequirements(x) => v.enc() + rest == enc_u64(1) + (x.enc() + rest),
            BackendInput::SchedTimingToday(x) => v.enc() + rest == enc_u64(2) + (x.enc() + rest),
            BackendInput::RenderCard(x) => v.enc() + rest == enc_u64(3) + (x.enc() + rest),
            BackendInput::LocalMinutesWest(x) => v.enc() + rest == enc_u64(4) + (x.enc() + rest),
            BackendInput::StripAvTags(x) => v.enc() + rest == enc_u64(5) + (x.enc() + rest),
            BackendInput::ExtractAvTags(x) => v.enc() + rest == enc_u64(6) + (x.enc() + rest),
            BackendInput::ExtractLatex(x) => v.enc() + rest == enc_u64(7) + (x.enc() + rest),
            BackendInput::AddMediaFile(x) => v.enc() + rest == enc_u64(8) + (x.enc() + rest),
            BackendInput::SyncMedia(x) => v.enc() + rest == enc_u64(9) + (x.enc() + rest),
            BackendInput::CheckMedia => v.enc() + rest == enc_u64(10) + rest,
            BackendInput::TrashMediaFiles(x) => v.enc() + rest == enc_u64(11) + (x.enc() + rest),
            BackendInput::TranslateString(x) => v.enc() + rest == enc_u64(12) + (x.enc() + rest),
            BackendInput::FormatTimeSpan(x) => v.enc() + rest == enc_u64(13) + (x.enc() + rest),
            BackendInput::StudiedToday(x) => v.enc() + rest == enc_u64(14) + (x.enc() + rest),
            BackendInput::CongratsLearnMsg(x) => v.enc() + rest == enc_u64(15) + (x.enc() + rest),
            BackendInput::EmptyTrash => v.enc() + rest == enc_u64(16) + rest,
            BackendInput::RestoreTrash => v.enc() + rest == enc_u64(17) + rest,
            BackendInput::OpenCollection(x) => v.enc() + rest == enc_u64(18) + (x.enc() + rest),
            BackendInput::CloseCollection => v.enc() + rest == enc_u64(19) + rest,
            BackendInput::SearchCards(x) => v.enc() + rest == enc_u64(20) + (x.enc() + rest),
            BackendInput::SearchNotes(x) => v.enc() + rest == enc_u64(21) + (x.enc() + rest),
            BackendInput::GetCard(x) => v.enc() + rest == enc_u64(22) + (x.enc() + rest),
            BackendInput::UpdateCard(x) => v.enc() + rest == enc_u64(23) + (x.enc() + rest),
            BackendInput::AddCard(x) => v.enc() + rest == enc_u64(24) + (x.enc() + rest),
        },
{
    match v {
        BackendInput::TemplateRequirements(x) => { assert(v.enc() + rest =~= enc_u64(1) + (x.enc() + rest)); },
        BackendInput::SchedTimingToday(x) => { assert(v.enc() + rest =~= enc_u64(2) + (x.enc() + rest)); },
        BackendInput::RenderCard(x) => { assert(v.enc() + rest =~= enc_u64(3) + (x.enc() + rest)); },
        BackendInput::LocalMinutesWest(x) => { assert(v.enc() + rest =~= enc_u64(4) + (x.enc() + rest)); },
        BackendInput::StripAvTags(x) => { assert(v.enc() + rest =~= enc_u64(5) + (x.enc() + rest)); },
        BackendInput::ExtractAvTags(x) => { assert(v.enc() + rest =~= enc_u64(6) + (x.enc() + rest)); },
        BackendInput::ExtractLatex(x) => { assert(v.enc() + rest =~= enc_u64(7) + (x.enc() + rest)); },
        BackendInput::AddMediaFile(x) => { assert(v.enc() + rest =~= enc_u64(8) + (x.enc() + rest)); },
        BackendInput::SyncMedia(x) => { assert(v.enc() + rest =~= enc_u64(9) + (x.enc() + rest)); },
        BackendInput::CheckMedia => { assert(v.enc() + rest =~= enc_u64(10) + rest); },
        BackendInput::TrashMediaFiles(x) => { assert(v.enc() + rest =~= enc_u64(11) + (x.enc() + rest)); },
        BackendInput::TranslateString(x) => { assert(v.enc() + rest =~= enc_u64(12) + (x.enc() + rest)); },
        BackendInput::FormatTimeSpan(x) => { assert(v.enc() + rest =~= enc_u64(13) + (x.enc() + rest)); },
        BackendInput::StudiedToday(x) => { assert(v.enc() + rest =~= enc_u64(14) + (x.enc() + rest)); },
        BackendInput::CongratsLearnMsg(x) => { assert(v.enc() + rest =~= enc_u64(15) + (x.enc() + rest)); },
        BackendInput::EmptyTrash => { assert(v.enc() + rest =~= enc_u64(16) + rest); },
        BackendInput::RestoreTrash => { assert(v.enc() + rest =~= enc_u64(17) + rest); },
        BackendInput::OpenCollection(x) => { assert(v.enc() + rest =~= enc_u64(18) + (x.enc() + rest)); },
        BackendInput::CloseCollection => { assert(v.enc() + rest =~= enc_u64(19) + rest); },
        BackendInput::SearchCards(x) => { assert(v.enc() + rest =~= enc_u64(20) + (x.enc() + rest)); },
        BackendInput::SearchNotes(x) => { assert(v.enc() + rest =~= enc_u64(21) + (x.enc() + rest)); },
        BackendInput::GetCard(x) => { assert(v.enc() + rest =~= enc_u64(22) + (x.enc() + rest)); },
        BackendInput::UpdateCard(x) => { assert(v.enc() + rest =~= enc_u64(23) + (x.enc() + rest)); },
        BackendInput::AddCard(x) => { assert(v.enc() + rest =~= enc_u64(24) + (x.enc() + rest)); },
    }
}

#[verifier::rlimit(100)]
#[verifier::spinoff_prover]
fn read_input_a(buf: &[u8], pos: usize, t: u64, p1: usize) -> (r: Option<(BackendInput, usize)>)
    requires
        pos <= p1 <= buf@.len(),
        1 <= t <= 8,
        buf@.skip(pos as int) == enc_u64(t) + buf@.skip(p1 as int),
        forall|w: u64, wrest: Seq<u8>|
            buf@.skip(pos as int) == enc_u64(w) + wrest ==> w == t && buf@.skip(p1 as int) == wrest,
    ensures
        (r matches Some(p) ==> pos <= p.1 <= buf@.len() && buf@.skip(pos as int) == p.0.enc() + buf@.skip(p.1 as int)),
        forall|v: BackendInput, rest: Seq<u8>|
            #[trigger] (v.enc() + rest) == buf@.skip(pos as int) ==> (r matches Some(p) && p.0.enc() == v.enc() && buf@.skip(p.1 as int) == rest),
{
        if t == 1 {
            return match <TemplateRequirementsIn as Wire>::read(buf, p1) {
                None => {
                    proof {
                        assert forall|v: BackendInput, rest: Seq<u8>|
                            #[trigger] (v.enc() + rest) != buf@.skip(pos as int) by {
                            if (v.enc() + rest) == buf@.skip(pos as int) {
                                lemma_nest_input(&v, rest);
                                match v {
                                    BackendInput::TemplateRequirements(y) => { assert(buf@.skip(p1 as int) == y.enc() + rest); },
                                    _ => { },
                                }
                            }
                        }
                    }
                    None
                },
                Some((y, p2)) => {
                    let x = BackendInput::TemplateRequirements(y);
                    proof {
                        assert(buf@.skip(pos as int) =~= x.enc() + buf@.skip(p2 as int));
                        assert forall|v: BackendInput, rest: Seq<u8>|
                            #[trigger] (v.enc() + rest) == buf@.skip(pos as int) implies x.enc() == v.enc() && buf@.skip(p2 as int) == rest by {
                            lemma_nest_input(&v, rest);
                            match v {
                                BackendInput::TemplateRequirements(y2) => {
                                    assert(buf@.skip(p1 as int) == y2.enc() + rest);
                                    assert(x.enc() =~= v.enc());
                                },
                                _ => { },
                            }
                        }
                    }
                    Some((x, p2))
                },
            };
        }
        if t == 2 {
            return match <SchedTimingTodayIn as Wire>::read(buf, p1) {
                None => {
                    proof {
                        assert forall|v: BackendInput, rest: Seq<u8>|
                            #[trigger] (v.enc() + rest) != buf@.skip(pos as int) by {
                            if (v.enc() + rest) == buf@.skip(pos as int) {
                                lemma_nest_input(&v, rest);
                                match v {
                                    BackendInput::SchedTimingToday(y) => { assert(buf@.skip(p1 as int) == y.enc() + rest); },
                                    _ => { },
                                }
                            }
                        }
                    }
                    None
                },
                Some((y, p2)) => {
                    let x = BackendInput::SchedTimingToday(y);
                    proof {
                        assert(buf@.skip(pos as int) =~= x.enc() + buf@.skip(p2 as int));
                        assert forall|v: BackendInput, rest: Seq<u8>|
                            #[trigger] (v.enc() + rest) == buf@.skip(pos as int) implies x.enc() == v.enc() && buf@.skip(p2 as int) == rest by {
                            lemma_nest_input(&v, rest);
                            match v {
                                BackendInput::SchedTimingToday(y2) => {
                                    assert(buf@.skip(p1 as int) == y2.enc() + rest);
                                    assert(x.enc() =~= v.enc());
                                },
                                _ => { },
                            }
                        }
                    }
                    Some((x, p2))
                },
            };
        }
        if t == 3 {
            return match <RenderCardIn as Wire>::read(buf, p1) {
                None => {
                    proof {
                        assert forall|v: BackendInput, rest: Seq<u8>|
                            #[trigger] (v.enc() + rest) != buf@.skip(pos as int) by {
                            if (v.enc() + rest) == buf@.skip(pos as int) {
                                lemma_nest_input(&v, rest);
                                match v {
                                    BackendInput::RenderCard(y) => { assert(buf@.skip(p1 as int) == y.enc() + rest); },
                                    _ => { },
                                }
                            }
                        }
                    }
                    None
                },
                Some((y, p2)) => {
                    let x = BackendInput::RenderCard(y);
                    proof {
                        assert(buf@.skip(pos as int) =~= x.enc() + buf@.skip(p2 as int));
                        assert forall|v: BackendInput, rest: Seq<u8>|
                            #[trigger] (v.enc() + rest) == buf@.skip(pos as int) implies x.enc() == v.enc() && buf@.skip(p2 as int) == rest by {
                            lemma_nest_input(&v, rest);
                            match v {
                                BackendInput::RenderCard(y2) => {
                                    assert(buf@.skip(p1 as int) == y2.enc() + rest);
                                    assert(x.enc() =~= v.enc());
                                },
                                _ => { },
                            }
                        }
                    }
                    Some((x, p2))
                },
            };
        }
        if t == 4 {
            return match <i64 as Wire>::read(buf, p1) {
                None => {
                    proof {
                        assert forall|v: BackendInput, rest: Seq<u8>|
                            #[trigger] (v.enc() + rest) != buf@.skip(pos as int) by {
                            if (v.enc() + rest) == buf@.skip(pos as int) {
                                lemma_nest_input(&v, rest);
                                match v {
                                    BackendInput::LocalMinutesWest(y) => { assert(buf@.skip(p1 as int) == y.enc() + rest); },
                                    _ => { },
                                }
                            }
                        }
                    }
                    None
                },
                Some((y, p2)) => {
                    let x = BackendInput::LocalMinutesWest(y);
                    proof {
                        assert(buf@.skip(pos as int) =~= x.enc() + buf@.skip(p2 as int));
                        assert forall|v: BackendInput, rest: Seq<u8>|
                            #[trigger] (v.enc() + rest) == buf@.skip(pos as int) implies x.enc() == v.enc() && buf@.skip(p2 as int) == rest by {
                            lemma_nest_input(&v, rest);
                            match v {
                                BackendInput::LocalMinutesWest(y2) => {
                                    assert(buf@.skip(p1 as int) == y2.enc() + rest);
                                    assert(x.enc() =~= v.enc());
                                },
                                _ => { },
                            }
                        }
                    }
                    Some((x, p2))
                },
            };
        }
        if t == 5 {
            return match <Vec<u8> as Wire>::read(buf, p1) {
                None => {
                    proof {
                        assert forall|v: BackendInput, rest: Seq<u8>|
                            #[trigger] (v.enc() + rest) != buf@.skip(pos as int) by {
                            if (v.enc() + rest) == buf@.skip(pos as int) {
                                lemma_nest_input(&v, rest);
                                match v {
                                    BackendInput::StripAvTags(y) => { assert(buf@.skip(p1 as int) == y.enc() + rest); },
                                    _ => { },
                                }
                            }
                        }
                    }
                    None
                },
                Some((y, p2)) => {
                    let x = BackendInput::StripAvTags(y);
                    proof {
                        assert(buf@.skip(pos as int) =~= x.enc() + buf@.skip(p2 as int));
                        assert forall|v: BackendInput, rest: Seq<u8>|
                            #[trigger] (v.enc() + rest) == buf@.skip(pos as int) implies x.enc() == v.enc() && buf@.skip(p2 as int) == rest by {
                            lemma_nest_input(&v, rest);
                            match v {
                                BackendInput::StripAvTags(y2) => {
                                    assert(buf@.skip(p1 as int) == y2.enc() + rest);
                                    assert(x.enc() =~= v.enc());
                                },
                                _ => { },
                            }
                        }
                    }
                    Some((x, p2))
                },
            };
        }
        if t == 6 {
            return match <ExtractAvTagsIn as Wire>::read(buf, p1) {
                None => {
                    proof {
                        assert forall|v: BackendInput, rest: Seq<u8>|
                            #[trigger] (v.enc() + rest) != buf@.skip(pos as int) by {
                            if (v.enc() + rest) == buf@.skip(pos as int) {
                                lemma_nest_input(&v, rest);
                                match v {
                                    BackendInput::ExtractAvTags(y) => { assert(buf@.skip(p1 as int) == y.enc() + rest); },
                                    _ => { },
                                }
                            }
                        }
                    }
                    None
                },
                Some((y, p2)) => {
                    let x = BackendInput::ExtractAvTags(y);
                    proof {
                        assert(buf@.skip(pos as int) =~= x.enc() + buf@.skip(p2 as int));
                        assert forall|v: BackendInput, rest: Seq<u8>|
                            #[trigger] (v.enc() + rest) == buf@.skip(pos as int) implies x.enc() == v.enc() && buf@.skip(p2 as int) == rest by {
                            lemma_nest_input(&v, rest);
                            match v {
                                BackendInput::ExtractAvTags(y2) => {
                                    assert(buf@.skip(p1 as int) == y2.enc() + rest);
                                    assert(x.enc() =~= v.enc());
                                },
                                _ => { },
                            }
                        }
                    }
                    Some((x, p2))
                },
            };
        }
        if t == 7 {
            return match <ExtractLatexIn as Wire>::read(buf, p1) {
                None => {
                    proof {
                        assert forall|v: BackendInput, rest: Seq<u8>|
                            #[trigger] (v.enc() + rest) != buf@.skip(pos as int) by {
                            if (v.enc() + rest) == buf@.skip(pos as int) {
                                lemma_nest_input(&v, rest);
                                match v {
                                    BackendInput::ExtractLatex(y) => { assert(buf@.skip(p1 as int) == y.enc() + rest); },
                                    _ => { },
                                }
                            }
                        }
                    }
                    None
                },
                Some((y, p2)) => {
                    let x = BackendInput::ExtractLatex(y);
                    proof {
                        assert(buf@.skip(pos as int) =~= x.enc() + buf@.skip(p2 as int));
                        assert forall|v: BackendInput, rest: Seq<u8>|
                            #[trigger] (v.enc() + rest) == buf@.skip(pos as int) implies x.enc() == v.enc() && buf@.skip(p2 as int) == rest by {
                            lemma_nest_input(&v, rest);
                            match v {
                                BackendInput::ExtractLatex(y2) => {
                                    assert(buf@.skip(p1 as int) == y2.enc() + rest);
                                    assert(x.enc() =~= v.enc());
                                },
                                _ => { },
                            }
                        }
                    }
                    Some((x, p2))
                },
            };
        }
        if t == 8 {
            return match <AddMediaFileIn as Wire>::read(buf, p1) {
                None => {
                    proof {
                        assert forall|v: BackendInput, rest: Seq<u8>|
                            #[trigger] (v.enc() + rest) != buf@.skip(pos as int) by {
                            if (v.enc() + rest) == buf@.skip(pos as int) {
                                lemma_nest_input(&v, rest);
                                match v {
                                    BackendInput::AddMediaFile(y) => { assert(buf@.skip(p1 as int) == y.enc() + rest); },
                                    _ => { },
                                }
                            }
                        }
                    }
                    None
                },
                Some((y, p2)) => {
                    let x = BackendInput::AddMediaFile(y);
                    proof {
                        assert(buf@.skip(pos as int) =~= x.enc() + buf@.skip(p2 as int));
                        assert forall|v: BackendInput, rest: Seq<u8>|
                            #[trigger] (v.enc() + rest) == buf@.skip(pos as int) implies x.enc() == v.enc() && buf@.skip(p2 as int) == rest by {
                            lemma_nest_input(&v, rest);
                            match v {
                                BackendInput::AddMediaFile(y2) => {
                                    assert(buf@.skip(p1 as int) == y2.enc() + rest);
                                    assert(x.enc() =~= v.enc());
                                },
                                _ => { },
                            }
                        }
                    }
                    Some((x, p2))
                },
            };
        }
    proof {
        assert(false);
    }
    None
}

#[verifier::rlimit(100)]
#[verifier::spinoff_prover]
fn read_input_b(buf: &[u8], pos: usize, t: u64, p1: usize) -> (r: Option<(BackendInput, usize)>)
    requires
        pos <= p1 <= buf@.len(),
        9 <= t <= 16,
        buf@.skip(pos as int) == enc_u64(t) + buf@.skip(p1 as int),
        forall|w: u64, wrest: Seq<u8>|
            buf@.skip(pos as int) == enc_u64(w) + wrest ==> w == t && buf@.skip(p1 as int) == wrest,
    ensures
        (r matches Some(p) ==> pos <= p.1 <= buf@.len() && buf@.skip(pos as int) == p.0.enc() + buf@.skip(p.1 as int)),
        forall|v: BackendInput, rest: Seq<u8>|
            #[trigger] (v.enc() + rest) == buf@.skip(pos as int) ==> (r matches Some(p) && p.0.enc() == v.enc() && buf@.skip(p.1 as int) == rest),
{
        if t == 9 {
            return match <SyncMediaIn as Wire>::read(buf, p1) {
                None => {
                    proof {
                        assert forall|v: BackendInput, rest: Seq<u8>|
                            #[trigger] (v.enc() + rest) != buf@.skip(pos as int) by {
                            if (v.enc() + rest) == buf@.skip(pos as int) {
                                lemma_nest_input(&v, rest);
                                match v {
                                    BackendInput::SyncMedia(y) => { assert(buf@.skip(p1 as int) == y.enc() + rest); },
                                    _ => { },
                                }
                            }
                        }
                    }
                    None
                },
                Some((y, p2)) => {
                    let x = BackendInput::SyncMedia(y);
                    proof {
                        assert(buf@.skip(pos as int) =~= x.enc() + buf@.skip(p2 as int));
                        assert forall|v: BackendInput, rest: Seq<u8>|
                            #[trigger] (v.enc() + rest) == buf@.skip(pos as int) implies x.enc() == v.enc() && buf@.skip(p2 as int) == rest by {
                            lemma_nest_input(&v, rest);
                            match v {
                                BackendInput::SyncMedia(y2) => {
                                    assert(buf@.skip(p1 as int) == y2.enc() + rest);
                                    assert(x.enc() =~= v.enc());
                                },
                                _ => { },
                            }
                        }
                    }
                    Some((x, p2))
                },
            };
        }
        if t == 10 {
            let x = BackendInput::CheckMedia;
            proof {
                assert(buf@.skip(pos as int) =~= x.enc() + buf@.skip(p1 as int));
                assert forall|v: BackendInput, rest: Seq<u8>|
                    #[trigger] (v.enc() + rest) == buf@.skip(pos as int) implies x.enc() == v.enc() && buf@.skip(p1 as int) == rest by {
                    lemma_nest_input(&v, rest);
                    match v {
                        BackendInput::CheckMedia => { assert(x.enc() =~= v.enc()); },
                        _ => { },
                    }
                }
            }
            return Some((x, p1));
        }
        if t == 11 {
            return match <TrashMediaFilesIn as Wire>::read(buf, p1) {
                None => {
                    proof {
                        assert forall|v: BackendInput, rest: Seq<u8>|
                            #[trigger] (v.enc() + rest) != buf@.skip(pos as int) by {
                            if (v.enc() + rest) == buf@.skip(pos as int) {
                                lemma_nest_input(&v, rest);
                                match v {
                                    BackendInput::TrashMediaFiles(y) => { assert(buf@.skip(p1 as int) == y.enc() + rest); },
                                    _ => { },
                                }
                            }
                        }
                    }
                    None
                },
                Some((y, p2)) => {
                    let x = BackendInput::TrashMediaFiles(y);
                    proof {
                        assert(buf@.skip(pos as int) =~= x.enc() + buf@.skip(p2 as int));
                        assert forall|v: BackendInput, rest: Seq<u8>|
                            #[trigger] (v.enc() + rest) == buf@.skip(pos as int) implies x.enc() == v.enc() && buf@.skip(p2 as int) == rest by {
                            lemma_nest_input(&v, rest);
                            match v {
                                BackendInput::TrashMediaFiles(y2) => {
                                    assert(buf@.skip(p1 as int) == y2.enc() + rest);
                                    assert(x.enc() =~= v.enc());
                                },
                                _ => { },
                            }
                        }
                    }
                    Some((x, p2))
                },
            };
        }
        if t == 12 {
            return match <TranslateStringIn as Wire>::read(buf, p1) {
                None => {
                    proof {
                        assert forall|v: BackendInput, rest: Seq<u8>|
                            #[trigger] (v.enc() + rest) != buf@.skip(pos as int) by {
                            if (v.enc() + rest) == buf@.skip(pos as int) {
                                lemma_nest_input(&v, rest);
                                match v {
                                    BackendInput::TranslateString(y) => { assert(buf@.skip(p1 as int) == y.enc() + rest); },
                                    _ => { },
                                }
                            }
                        }
                    }
                    None
                },
                Some((y, p2)) => {
                    let x = BackendInput::TranslateString(y);
                    proof {
                        assert(buf@.skip(pos as int) =~= x.enc() + buf@.skip(p2 as int));
                        assert forall|v: BackendInput, rest: Seq<u8>|
                            #[trigger] (v.enc() + rest) == buf@.skip(pos as int) implies x.enc() == v.enc() && buf@.skip(p2 as int) == rest by {
                            lemma_nest_input(&v, rest);
                            match v {
                                BackendInput::TranslateString(y2) => {
                                    assert(buf@.skip(p1 as int) == y2.enc() + rest);
                                    assert(x.enc() =~= v.enc());
                                },
                                _ => { },
                            }
                        }
                    }
                    Some((x, p2))
                },
            };
        }
        if t == 13 {
            return match <FormatTimeSpanIn as Wire>::read(buf, p1) {
                None => {
                    proof {
                        assert forall|v: BackendInput, rest: Seq<u8>|
                            #[trigger] (v.enc() + rest) != buf@.skip(pos as int) by {
                            if (v.enc() + rest) == buf@.skip(pos as int) {
                                lemma_nest_input(&v, rest);
                                match v {
                                    BackendInput::FormatTimeSpan(y) => { assert(buf@.skip(p1 as int) == y.enc() + rest); },
                                    _ => { },
                                }
                            }
                        }
                    }
                    None
                },
                Some((y, p2)) => {
                    let x = BackendInput::FormatTimeSpan(y);
                    proof {
                        assert(buf@.skip(pos as int) =~= x.enc() + buf@.skip(p2 as int));
                        assert forall|v: BackendInput, rest: Seq<u8>|
                            #[trigger] (v.enc() + rest) == buf@.skip(pos as int) implies x.enc() == v.enc() && buf@.skip(p2 as int) == rest by {
                            lemma_nest_input(&v, rest);
                            match v {
                                BackendInput::FormatTimeSpan(y2) => {
                                    assert(buf@.skip(p1 as int) == y2.enc() + rest);
                                    assert(x.enc() =~= v.enc());
                                },
                                _ => { },
                            }
                        }
                    }
                    Some((x, p2))
                },
            };
        }
        if t == 14 {
            return match <StudiedTodayIn as Wire>::read(buf, p1) {
                None => {
                    proof {
                        assert forall|v: BackendInput, rest: Seq<u8>|
                            #[trigger] (v.enc() + rest) != buf@.skip(pos as int) by {
                            if (v.enc() + rest) == buf@.skip(pos as int) {
                                lemma_nest_input(&v, rest);
                                match v {
                                    BackendInput::StudiedToday(y) => { assert(buf@.skip(p1 as int) == y.enc() + rest); },
                                    _ => { },
                                }
                            }
                        }
                    }
                    None
                },
                Some((y, p2)) => {
                    let x = BackendInput::StudiedToday(y);
                    proof {
                        assert(buf@.skip(pos as int) =~= x.enc() + buf@.skip(p2 as int));
                        assert forall|v: BackendInput, rest: Seq<u8>|
                            #[trigger] (v.enc() + rest) == buf@.skip(pos as int) implies x.enc() == v.enc() && buf@.skip(p2 as int) == rest by {
                            lemma_nest_input(&v, rest);
                            match v {
                                BackendInput::StudiedToday(y2) => {
                                    assert(buf@.skip(p1 as int) == y2.enc() + rest);
                                    assert(x.enc() =~= v.enc());
                                },
                                _ => { },
                            }
                        }
                    }
                    Some((x, p2))
                },
            };
        }
        if t == 15 {
            return match <CongratsLearnMsgIn as Wire>::read(buf, p1) {
                None => {
                    proof {
                        assert forall|v: BackendInput, rest: Seq<u8>|
                            #[trigger] (v.enc() + rest) != buf@.skip(pos as int) by {
                            if (v.enc() + rest) == buf@.skip(pos as int) {
                                lemma_nest_input(&v, rest);
                                match v {
                                    BackendInput::CongratsLearnMsg(y) => { assert(buf@.skip(p1 as int) == y.enc() + rest); },
                                    _ => { },
                                }
                            }
                        }
                    }
                    None
                },
                Some((y, p2)) => {
                    let x = BackendInput::CongratsLearnMsg(y);
                    proof {
                        assert(buf@.skip(pos as int) =~= x.enc() + buf@.skip(p2 as int));
                        assert forall|v: BackendInput, rest: Seq<u8>|
                            #[trigger] (v.enc() + rest) == buf@.skip(pos as int) implies x.enc() == v.enc() && buf@.skip(p2 as int) == rest by {
                            lemma_nest_input(&v, rest);
                            match v {
                                BackendInput::CongratsLearnMsg(y2) => {
                                    assert(buf@.skip(p1 as int) == y2.enc() + rest);
                                    assert(x.enc() =~= v.enc());
                                },
                                _ => { },
                            }
                        }
                    }
                    Some((x, p2))
                },
            };
        }
        if t == 16 {
            let x = BackendInput::EmptyTrash;
            proof {
                assert(buf@.skip(pos as int) =~= x.enc() + buf@.skip(p1 as int));
                assert forall|v: BackendInput, rest: Seq<u8>|
                    #[trigger] (v.enc() + rest) == buf@.skip(pos as int) implies x.enc() == v.enc() && buf@.skip(p1 as int) == rest by {
                    lemma_nest_input(&v, rest);
                    match v {
                        BackendInput::EmptyTrash => { assert(x.enc() =~= v.enc()); },
                        _ => { },
                    }
                }
            }
            return Some((x, p1));
        }
    proof {
        assert(false);
    }
    None
}

#[verifier::rlimit(100)]
#[verifier::spinoff_prover]
fn read_input_c(buf: &[u8], pos: usize, t: u64, p1: usize) -> (r: Option<(BackendInput, usize)>)
    requires
        pos <= p1 <= buf@.len(),
        17 <= t <= 24,
        buf@.skip(pos as int) == enc_u64(t) + buf@.skip(p1 as int),
        forall|w: u64, wrest: Seq<u8>|
            buf@.skip(pos as int) == enc_u64(w) + wrest ==> w == t && buf@.skip(p1 as int) == wrest,
    ensures
        (r matches Some(p) ==> pos <= p.1 <= buf@.len() && buf@.skip(pos as int) == p.0.enc() + buf@.skip(p.1 as int)),
        forall|v: BackendInput, rest: Seq<u8>|
            #[trigger] (v.enc() + rest) == buf@.skip(pos as int) ==> (r matches Some(p) && p.0.enc() == v.enc() && buf@.skip(p.1 as int) == rest),
{
        if t == 17 {
            let x = BackendInput::RestoreTrash;
            proof {
                assert(buf@.skip(pos as int) =~= x.enc() + buf@.skip(p1 as int));
                assert forall|v: BackendInput, rest: Seq<u8>|
                    #[trigger] (v.enc() + rest) == buf@.skip(pos as int) implies x.enc() == v.enc() && buf@.skip(p1 as int) == rest by {
                    lemma_nest_input(&v, rest);
                    match v {
                        BackendInput::RestoreTrash => { assert(x.enc() =~= v.enc()); },
                        _ => { },
                    }
                }
            }
            return Some((x, p1));
        }
        if t == 18 {
            return match <OpenCollectionIn as Wire>::read(buf, p1) {
                None => {
                    proof {
                        assert forall|v: BackendInput, rest: Seq<u8>|
                            #[trigger] (v.enc() + rest) != buf@.skip(pos as int) by {
                            if (v.enc() + rest) == buf@.skip(pos as int) {
                                lemma_nest_input(&v, rest);
                                match v {
                                    BackendInput::OpenCollection(y) => { assert(buf@.skip(p1 as int) == y.enc() + rest); },
                                    _ => { },
                                }
                            }
                        }
                    }
                    None
                },
                Some((y, p2)) => {
                    let x = BackendInput::OpenCollection(y);
                    proof {
                        assert(buf@.skip(pos as int) =~= x.enc() + buf@.skip(p2 as int));
                        assert forall|v: BackendInput, rest: Seq<u8>|
                            #[trigger] (v.enc() + rest) == buf@.skip(pos as int) implies x.enc() == v.enc() && buf@.skip(p2 as int) == rest by {
                            lemma_nest_input(&v, rest);
                            match v {
                                BackendInput::OpenCollection(y2) => {
                                    assert(buf@.skip(p1 as int) == y2.enc() + rest);
                                    assert(x.enc() =~= v.enc());
                                },
                                _ => { },
                            }
                        }
                    }
                    Some((x, p2))
                },
            };
        }
        if t == 19 {
            let x = BackendInput::CloseCollection;
            proof {
                assert(buf@.skip(pos as int) =~= x.enc() + buf@.skip(p1 as int));
                assert forall|v: BackendInput, rest: Seq<u8>|
                    #[trigger] (v.enc() + rest) == buf@.skip(pos as int) implies x.enc() == v.enc() && buf@.skip(p1 as int) == rest by {
                    lemma_nest_input(&v, rest);
                    match v {
                        BackendInput::CloseCollection => { assert(x.enc() =~= v.enc()); },
                        _ => { },
                    }
                }
            }
            return Some((x, p1));
        }
        if t == 20 {
            return match <SearchCardsIn as Wire>::read(buf, p1) {
                None => {
                    proof {
                        assert forall|v: BackendInput, rest: Seq<u8>|
                            #[trigger] (v.enc() + rest) != buf@.skip(pos as int) by {
                            if (v.enc() + rest) == buf@.skip(pos as int) {
                                lemma_nest_input(&v, rest);
                                match v {
                                    BackendInput::SearchCards(y) => { assert(buf@.skip(p1 as int) == y.enc() + rest); },
                                    _ => { },
                                }
                            }
                        }
                    }
                    None
                },
                Some((y, p2)) => {
                    let x = BackendInput::SearchCards(y);
                    proof {
                        assert(buf@.skip(pos as int) =~= x.enc() + buf@.skip(p2 as int));
                        assert forall|v: BackendInput, rest: Seq<u8>|
                            #[trigger] (v.enc() + rest) == buf@.skip(pos as int) implies x.enc() == v.enc() && buf@.skip(p2 as int) == rest by {
                            lemma_nest_input(&v, rest);
                            match v {
                                BackendInput::SearchCards(y2) => {
                                    assert(buf@.skip(p1 as int) == y2.enc() + rest);
                                    assert(x.enc() =~= v.enc());
                                },
                                _ => { },
                            }
                        }
                    }
                    Some((x, p2))
                },
            };
        }
        if t == 21 {
            return match <SearchNotesIn as Wire>::read(buf, p1) {
                None => {
                    proof {
                        assert forall|v: BackendInput, rest: Seq<u8>|
                            #[trigger] (v.enc() + rest) != buf@.skip(pos as int) by {
                            if (v.enc() + rest) == buf@.skip(pos as int) {
                                lemma_nest_input(&v, rest);
                                match v {
                                    BackendInput::SearchNotes(y) => { assert(buf@.skip(p1 as int) == y.enc() + rest); },
                                    _ => { },
                                }
                            }
                        }
                    }
                    None
                },
                Some((y, p2)) => {
                    let x = BackendInput::SearchNotes(y);
                    proof {
                        assert(buf@.skip(pos as int) =~= x.enc() + buf@.skip(p2 as int));
                        assert forall|v: BackendInput, rest: Seq<u8>|
                            #[trigger] (v.enc() + rest) == buf@.skip(pos as int) implies x.enc() == v.enc() && buf@.skip(p2 as int) == rest by {
                            lemma_nest_input(&v, rest);
                            match v {
                                BackendInput::SearchNotes(y2) => {
                                    assert(buf@.skip(p1 as int) == y2.enc() + rest);
                                    assert(x.enc() =~= v.enc());
                                },
                                _ => { },
                            }
                        }
                    }
                    Some((x, p2))
                },
            };
        }
        if t == 22 {
            return match <i64 as Wire>::read(buf, p1) {
                None => {
                    proof {
                        assert forall|v: BackendInput, rest: Seq<u8>|
                            #[trigger] (v.enc() + rest) != buf@.skip(pos as int) by {
                            if (v.enc() + rest) == buf@.skip(pos as int) {
                                lemma_nest_input(&v, rest);
                                match v {
                                    BackendInput::GetCard(y) => { assert(buf@.skip(p1 as int) == y.enc() + rest); },
                                    _ => { },
                                }
                            }
                        }
                    }
                    None
                },
                Some((y, p2)) => {
                    let x = BackendInput::GetCard(y);
                    proof {
                        assert(buf@.skip(pos as int) =~= x.enc() + buf@.skip(p2 as int));
                        assert forall|v: BackendInput, rest: Seq<u8>|
                            #[trigger] (v.enc() + rest) == buf@.skip(pos as int) implies x.enc() == v.enc() && buf@.skip(p2 as int) == rest by {
                            lemma_nest_input(&v, rest);
                            match v {
                                BackendInput::GetCard(y2) => {
                                    assert(buf@.skip(p1 as int) == y2.enc() + rest);
                                    assert(x.enc() =~= v.enc());
                                },
                                _ => { },
                            }
                        }
                    }
                    Some((x, p2))
                },
            };
        }
        if t == 23 {
            return match <WireCard as Wire>::read(buf, p1) {
                None => {
                    proof {
                        assert forall|v: BackendInput, rest: Seq<u8>|
                            #[trigger] (v.enc() + rest) != buf@.skip(pos as int) by {
                            if (v.enc() + rest) == buf@.skip(pos as int) {
                                lemma_nest_input(&v, rest);
                                match v {
                                    BackendInput::UpdateCard(y) => { assert(buf@.skip(p1 as int) == y.enc() + rest); },
                                    _ => { },
                                }
                            }
                        }
                    }
                    None
                },
                Some((y, p2)) => {
                    let x = BackendInput::UpdateCard(y);
                    proof {
                        assert(buf@.skip(pos as int) =~= x.enc() + buf@.skip(p2 as int));
                        assert forall|v: BackendInput, rest: Seq<u8>|
                            #[trigger] (v.enc() + rest) == buf@.skip(pos as int) implies x.enc() == v.enc() && buf@.skip(p2 as int) == rest by {
                            lemma_nest_input(&v, rest);
                            match v {
                                BackendInput::UpdateCard(y2) => {
                                    assert(buf@.skip(p1 as int) == y2.enc() + rest);
                                    assert(x.enc() =~= v.enc());
                                },
                                _ => { },
                            }
                        }
                    }
                    Some((x, p2))
                },
            };
        }
        if t == 24 {
            return match <WireCard as Wire>::read(buf, p1) {
                None => {
                    proof {
                        assert forall|v: BackendInput, rest: Seq<u8>|
                            #[trigger] (v.enc() + rest) != buf@.skip(pos as int) by {
                            if (v.enc() + rest) == buf@.skip(pos as int) {
                                lemma_nest_input(&v, rest);
                                match v {
                                    BackendInput::AddCard(y) => { assert(buf@.skip(p1 as int) == y.enc() + rest); },
                                    _ => { },
                                }
                            }
                        }
                    }
                    None
                },
                Some((y, p2)) => {
                    let x = BackendInput::AddCard(y);
                    proof {
                        assert(buf@.skip(pos as int) =~= x.enc() + buf@.skip(p2 as int));
                        assert forall|v: BackendInput, rest: Seq<u8>|
                            #[trigger] (v.enc() + rest) == buf@.skip(pos as int) implies x.enc() == v.enc() && buf@.skip(p2 as int) == rest by {
                            lemma_nest_input(&v, rest);
                            match v {
                                BackendInput::AddCard(y2) => {
                                    assert(buf@.skip(p1 as int) == y2.enc() + rest);
                                    assert(x.enc() =~= v.enc());
                                },
                                _ => { },
                            }
                        }
                    }
                    Some((x, p2))
                },
            };
        }
    proof {
        assert(false);
    }
    None
}

impl Wire for BackendInput {
    fn read(buf: &[u8], pos: usize) -> (r: Option<(Self, usize)>) {
        let (t, p1) = match crate::codec::read_u64(buf, pos) {
            Some(z) => z,
            None => {
                proof {
                    assert forall|v: Self, rest: Seq<u8>|
                        #[trigger] (v.enc() + rest) != buf@.skip(pos as int) by {
                        if (v.enc() + rest) == buf@.skip(pos as int) {
                            lemma_nest_input(&v, rest);
                        }
                    }
                }
                return None;
            },
        };
        if 1 <= t && t <= 8 {
            read_input_a(buf, pos, t, p1)
        } else if 9 <= t && t <= 16 {
            read_input_b(buf, pos, t, p1)
        } else if 17 <= t && t <= 24 {
            read_input_c(buf, pos, t, p1)
        } else {
            proof {
                assert forall|v: Self, rest: Seq<u8>|
                    #[trigger] (v.enc() + rest) != buf@.skip(pos as int) by {
                    if (v.enc() + rest) == buf@.skip(pos as int) {
                        lemma_nest_input(&v, rest);
                    }
                }
            }
            None
        }
    }
}


/// Satisfiable when any of these field ordinals is non-empty.
pub struct TemplateRequirementAny {
    pub ords: Vec<u32>,
}

impl WireEnc for TemplateRequirementAny {
    open spec fn enc(&self) -> Seq<u8> {
        enc_list(self.ords@)
    }

    fn write(&self, out: &mut Vec<u8>) {
        write_list(out, &self.ords);
        assert(final(out)@ =~= old(out)@ + self.enc());
    }
}


/// Satisfiable only when all of these field ordinals are non-empty.
pub struct TemplateRequirementAll {
    pub ords: Vec<u32>,
}

impl WireEnc for TemplateRequirementAll {
    open spec fn enc(&self) -> Seq<u8> {
        enc_list(self.ords@)
    }

    fn write(&self, out: &mut Vec<u8>) {
        write_list(out, &self.ords);
        assert(final(out)@ =~= old(out)@ + self.enc());
    }
}


/// What a template demands of a note's fields; an unparseable template
/// is unsatisfiable.
pub enum TemplateRequirement {
    Any(TemplateRequirementAny),
    All(TemplateRequirementAll),
    Unsatisfiable,
}

impl WireEnc for TemplateRequirement {
    open spec fn enc(&self) -> Seq<u8> {
        match self {
            TemplateRequirement::Any(x) => enc_u64(1) + x.enc(),
            TemplateRequirement::All(x) => enc_u64(2) + x.enc(),
            TemplateRequirement::Unsatisfiable => enc_u64(3),
        }
    }

    fn write(&self, out: &mut Vec<u8>) {
        match self {
            TemplateRequirement::Any(x) => {
                crate::codec::write_u64(out, 1);
                x.write(out);
            },
            TemplateRequirement::All(x) => {
                crate::codec::write_u64(out, 2);
                x.write(out);
            },
            TemplateRequirement::Unsatisfiable => {
                crate::codec::write_u64(out, 3);
            },
        }
        assert(final(out)@ =~= old(out)@ + self.enc());
    }
}


/// One requirement per submitted template front, in order.
pub struct TemplateRequirementsOut {
    pub requirements: Vec<TemplateRequirement>,
}

impl WireEnc for TemplateRequirementsOut {
    open spec fn enc(&self) -> Seq<u8> {
        enc_list(self.requirements@)
    }

    fn write(&self, out: &mut Vec<u8>) {
        write_list(out, &self.requirements);
        assert(final(out)@ =~= old(out)@ + self.enc());
    }
}


/// Days since collection creation, and when the next day starts.
pub struct SchedTimingTodayOut {
    pub days_elapsed: u32,
    pub next_day_at: i64,
}

impl WireEnc for SchedTimingTodayOut {
    open spec fn enc(&self) -> Seq<u8> {
        self.days_elapsed.enc() + self.next_day_at.enc()
    }

    fn write(&self, out: &mut Vec<u8>) {
        self.days_elapsed.write(out);
        self.next_day_at.write(out);
        assert(final(out)@ =~= old(out)@ + self.enc());
    }
}


/// A filled-in field reference of a rendered template.
pub struct RenderedTemplateReplacement {
    pub field_name: Vec<u8>,
    pub current_text: Vec<u8>,
    pub filters: Vec<Vec<u8>>,
}

impl WireEnc for RenderedTemplateReplacement {
    open spec fn enc(&self) -> Seq<u8> {
        self.field_name.enc() + self.current_text.enc() + enc_list(self.filters@)
    }

    fn write(&self, out: &mut Vec<u8>) {
        self.field_name.write(out);
        self.current_text.write(out);
        write_list(out, &self.filters);
        assert(final(out)@ =~= old(out)@ + self.enc());
    }
}


/// One run of a rendered template: literal text or a replacement.
pub enum RenderedNode {
    Text(Vec<u8>),
    Replacement(RenderedTemplateReplacement),
}

impl WireEnc for RenderedNode {
    open spec fn enc(&self) -> Seq<u8> {
        match self {
            RenderedNode::Text(x) => enc_u64(1) + x.enc(),
            RenderedNode::Replacement(x) => enc_u64(2) + x.enc(),
        }
    }

    fn write(&self, out: &mut Vec<u8>) {
        match self {
            RenderedNode::Text(x) => {
                crate::codec::write_u64(out, 1);
                x.write(out);
            },
            RenderedNode::Replacement(x) => {
                crate::codec::write_u64(out, 2);
                x.write(out);
            },
        }
        assert(final(out)@ =~= old(out)@ + self.enc());
    }
}


/// Both sides of a rendered card.
pub struct RenderCardOut {
    pub question_nodes: Vec<RenderedNode>,
    pub answer_nodes: Vec<RenderedNode>,
}

impl WireEnc for RenderCardOut {
    open spec fn enc(&self) -> Seq<u8> {
        enc_list(self.question_nodes@) + enc_list(self.answer_nodes@)
    }

    fn write(&self, out: &mut Vec<u8>) {
        write_list(out, &self.question_nodes);
        write_list(out, &self.answer_nodes);
        assert(final(out)@ =~= old(out)@ + self.enc());
    }
}


/// Text with its audio/video tags removed, and the tags' file names.
pub struct ExtractAvTagsOut {
    pub text: Vec<u8>,
    pub av_tags: Vec<Vec<u8>>,
}

impl WireEnc for ExtractAvTagsOut {
    open spec fn enc(&self) -> Seq<u8> {
        self.text.enc() + enc_list(self.av_tags@)
    }

    fn write(&self, out: &mut Vec<u8>) {
        self.text.write(out);
        write_list(out, &self.av_tags);
        assert(final(out)@ =~= old(out)@ + self.enc());
    }
}


/// One extracted formula and the image name that stands for it.
pub struct ExtractedLatex {
    pub filename: Vec<u8>,
    pub latex_body: Vec<u8>,
}

impl WireEnc for ExtractedLatex {
    open spec fn enc(&self) -> Seq<u8> {
        self.filename.enc() + self.latex_body.enc()
    }

    fn write(&self, out: &mut Vec<u8>) {
        self.filename.write(out);
        self.latex_body.write(out);
        assert(final(out)@ =~= old(out)@ + self.enc());
    }
}


/// Text with formula runs replaced, and the extracted formulas.
pub struct ExtractLatexOut {
    pub text: Vec<u8>,
    pub latex: Vec<ExtractedLatex>,
}

impl WireEnc for ExtractLatexOut {
    open spec fn enc(&self) -> Seq<u8> {
        self.text.enc() + enc_list(self.latex@)
    }

    fn write(&self, out: &mut Vec<u8>) {
        self.text.write(out);
        write_list(out, &self.latex);
        assert(final(out)@ =~= old(out)@ + self.enc());
    }
}


/// Findings of a media check.
pub struct MediaCheckOut {
    pub unused: Vec<Vec<u8>>,
    pub missing: Vec<Vec<u8>>,
    pub report: Vec<u8>,
    pub have_trash: bool,
}

impl WireEnc for MediaCheckOut {
    open spec fn enc(&self) -> Seq<u8> {
        enc_list(self.unused@) + enc_list(self.missing@) + self.report.enc() + self.have_trash.enc()
    }

    fn write(&self, out: &mut Vec<u8>) {
        write_list(out, &self.unused);
        write_list(out, &self.missing);
        self.report.write(out);
        self.have_trash.write(out);
        assert(final(out)@ =~= old(out)@ + self.enc());
    }
}


/// Matching card ids, in the requested order.
pub struct SearchCardsOut {
    pub card_ids: Vec<i64>,
}

impl WireEnc for SearchCardsOut {
    open spec fn enc(&self) -> Seq<u8> {
        enc_list(self.card_ids@)
    }

    fn write(&self, out: &mut Vec<u8>) {
        write_list(out, &self.card_ids);
        assert(final(out)@ =~= old(out)@ + self.enc());
    }
}


/// Matching note ids, first occurrence first.
pub struct SearchNotesOut {
    pub note_ids: Vec<i64>,
}

impl WireEnc for SearchNotesOut {
    open spec fn enc(&self) -> Seq<u8> {
        enc_list(self.note_ids@)
    }

    fn write(&self, out: &mut Vec<u8>) {
        write_list(out, &self.note_ids);
        assert(final(out)@ =~= old(out)@ + self.enc());
    }
}


/// The requested card, if it exists.
pub struct GetCardOut {
    pub card: Option<WireCard>,
}

impl WireEnc for GetCardOut {
    open spec fn enc(&self) -> Seq<u8> {
        enc_opt(&self.card)
    }

    fn write(&self, out: &mut Vec<u8>) {
        write_opt(out, &self.card);
        assert(final(out)@ =~= old(out)@ + self.enc());
    }
}


/// A translated error: a wire code, a subtype for network and sync
/// failures (zero otherwise), and localized text.
pub struct BackendError {
    pub code: u32,
    pub subtype: u32,
    pub localized: Vec<u8>,
}

impl WireEnc for BackendError {
    open spec fn enc(&self) -> Seq<u8> {
        self.code.enc() + self.subtype.enc() + self.localized.enc()
    }

    fn write(&self, out: &mut Vec<u8>) {
        self.code.write(out);
        self.subtype.write(out);
        self.localized.write(out);
        assert(final(out)@ =~= old(out)@ + self.enc());
    }
}


/// The response envelope: the operation's result, or a translated error.
pub enum BackendOutput {
    TemplateRequirements(TemplateRequirementsOut),
    SchedTimingToday(SchedTimingTodayOut),
    RenderCard(RenderCardOut),
    LocalMinutesWest(i32),
    StripAvTags(Vec<u8>),
    ExtractAvTags(ExtractAvTagsOut),
    ExtractLatex(ExtractLatexOut),
    AddMediaFile(Vec<u8>),
    SyncMedia,
    CheckMedia(MediaCheckOut),
    TrashMediaFiles,
    TranslateString(Vec<u8>),
    FormatTimeSpan(Vec<u8>),
    StudiedToday(Vec<u8>),
    CongratsLearnMsg(Vec<u8>),
    EmptyTrash,
    RestoreTrash,
    OpenCollection,
    CloseCollection,
    SearchCards(SearchCardsOut),
    SearchNotes(SearchNotesOut),
    GetCard(GetCardOut),
    UpdateCard,
    AddCard(i64),
    Error(BackendError),
}

impl WireEnc for BackendOutput {
    open spec fn enc(&self) -> Seq<u8> {
        match self {
            BackendOutput::TemplateRequirements(x) => enc_u64(1) + x.enc(),
            BackendOutput::SchedTimingToday(x) => enc_u64(2) + x.enc(),
            BackendOutput::RenderCard(x) => enc_u64(3) + x.enc(),
            BackendOutput::LocalMinutesWest(x) => enc_u64(4) + x.enc(),
            BackendOutput::StripAvTags(x) => enc_u64(5) + x.enc(),
            BackendOutput::ExtractAvTags(x) => enc_u64(6) + x.enc(),
            BackendOutput::ExtractLatex(x) => enc_u64(7) + x.enc(),
            BackendOutput::AddMediaFile(x) => enc_u64(8) + x.enc(),
            BackendOutput::SyncMedia => enc_u64(9),
            BackendOutput::CheckMedia(x) => enc_u64(10) + x.enc(),
            BackendOutput::TrashMediaFiles => enc_u64(11),
            BackendOutput::TranslateString(x) => enc_u64(12) + x.enc(),
            BackendOutput::FormatTimeSpan(x) => enc_u64(13) + x.enc(),
            BackendOutput::StudiedToday(x) => enc_u64(14) + x.enc(),
            BackendOutput::CongratsLearnMsg(x) => enc_u64(15) + x.enc(),
            BackendOutput::EmptyTrash => enc_u64(16),
            BackendOutput::RestoreTrash => enc_u64(17),
            BackendOutput::OpenCollection => enc_u64(18),
            BackendOutput::CloseCollection => enc_u64(19),
            BackendOutput::SearchCards(x) => enc_u64(20) + x.enc(),
            BackendOutput::SearchNotes(x) => enc_u64(21) + x.enc(),
            BackendOutput::GetCard(x) => enc_u64(22) + x.enc(),
            BackendOutput::UpdateCard => enc_u64(23),
            BackendOutput::AddCard(x) => enc_u64(24) + x.enc(),
            BackendOutput::Error(x) => enc_u64(25) + x.enc(),
        }
    }

    fn write(&self, out: &mut Vec<u8>) {
        match self {
            BackendOutput::TemplateRequirements(x) => {
                crate::codec::write_u64(out, 1);
                x.write(out);
            },
            BackendOutput::SchedTimingToday(x) => {
                crate::codec::write_u64(out, 2);
                x.write(out);
            },
            BackendOutput::RenderCard(x) => {
                crate::codec::write_u64(out, 3);
                x.write(out);
            },
            BackendOutput::LocalMinutesWest(x) => {
                crate::codec::write_u64(out, 4);
                x.write(out);
            },
            BackendOutput::StripAvTags(x) => {
                crate::codec::write_u64(out, 5);
                x.write(out);
            },
            BackendOutput::ExtractAvTags(x) => {
                crate::codec::write_u64(out, 6);
                x.write(out);
            },
            BackendOutput::ExtractLatex(x) => {
                crate::codec::write_u64(out, 7);
                x.write(out);
            },
            BackendOutput::AddMediaFile(x) => {
                crate::codec::write_u64(out, 8);
                x.write(out);
            },
            BackendOutput::SyncMedia => {
                crate::codec::write_u64(out, 9);
            },
            BackendOutput::CheckMedia(x) => {
                crate::codec::write_u64(out, 10);
                x.write(out);
            },
            BackendOutput::TrashMediaFiles => {
                crate::codec::write_u64(out, 11);
            },
            BackendOutput::TranslateString(x) => {
                crate::codec::write_u64(out, 12);
                x.write(out);
            },
            BackendOutput::FormatTimeSpan(x) => {
                crate::codec::write_u64(out, 13);
                x.write(out);
            },
            BackendOutput::StudiedToday(x) => {
                crate::codec::write_u64(out, 14);
                x.write(out);
            },
            BackendOutput::CongratsLearnMsg(x) => {
                crate::codec::write_u64(out, 15);
                x.write(out);
            },
            BackendOutput::EmptyTrash => {
                crate::codec::write_u64(out, 16);
            },
            BackendOutput::RestoreTrash => {
                crate::codec::write_u64(out, 17);
            },
            BackendOutput::OpenCollection => {
                crate::codec::write_u64(out, 18);
            },
            BackendOutput::CloseCollection => {
                crate::codec::write_u64(out, 19);
            },
            BackendOutput::SearchCards(x) => {
                crate::codec::write_u64(out, 20);
                x.write(out);
            },
            BackendOutput::SearchNotes(x) => {
                crate::codec::write_u64(out, 21);
                x.write(out);
            },
            BackendOutput::GetCard(x) => {
                crate::codec::write_u64(out, 22);
                x.write(out);
            },
            BackendOutput::UpdateCard => {
                crate::codec::write_u64(out, 23);
            },
            BackendOutput::AddCard(x) => {
                crate::codec::write_u64(out, 24);
                x.write(out);
            },
            BackendOutput::Error(x) => {
                crate::codec::write_u64(out, 25);
                x.write(out);
            },
        }
        assert(final(out)@ =~= old(out)@ + self.enc());
    }
}


/// Localized lines describing a media synchronisation in flight.
pub struct MediaSyncProgressMsg {
    pub checked: Vec<u8>,
    pub added: Vec<u8>,
    pub removed: Vec<u8>,
}

impl WireEnc for MediaSyncProgressMsg {
    open spec fn enc(&self) -> Seq<u8> {
        self.checked.enc() + self.added.enc() + self.removed.enc()
    }

    fn write(&self, out: &mut Vec<u8>) {
        self.checked.write(out);
        self.added.write(out);
        self.removed.write(out);
        assert(final(out)@ =~= old(out)@ + self.enc());
    }
}


/// A progress snapshot as delivered to the host.
pub enum WireProgress {
    MediaSync(MediaSyncProgressMsg),
    MediaCheck(Vec<u8>),
}

impl WireEnc for WireProgress {
    open spec fn enc(&self) -> Seq<u8> {
        match self {
            WireProgress::MediaSync(x) => enc_u64(1) + x.enc(),
            WireProgress::MediaCheck(x) => enc_u64(2) + x.enc(),
        }
    }

    fn write(&self, out: &mut Vec<u8>) {
        match self {
            WireProgress::MediaSync(x) => {
                crate::codec::write_u64(out, 1);
                x.write(out);
            },
            WireProgress::MediaCheck(x) => {
                crate::codec::write_u64(out, 2);
                x.write(out);
            },
        }
        assert(final(out)@ =~= old(out)@ + self.enc());
    }
}



/// Encodes one request envelope; the bytes are exactly `msg.enc()`, so
/// encoding is deterministic.
pub fn encode_input(msg: &BackendInput) -> (r: Vec<u8>)
    ensures
        r@ == msg.enc(),
{
    let mut out: Vec<u8> = Vec::new();
    msg.write(&mut out);
    out
}

/// Encodes one response envelope; the bytes are exactly `msg.enc()`.
pub fn encode_output(msg: &BackendOutput) -> (r: Vec<u8>)
    ensures
        r@ == msg.enc(),
{
    let mut out: Vec<u8> = Vec::new();
    msg.write(&mut out);
    out
}

/// Encodes one progress snapshot for delivery to the host.
pub fn encode_progress(msg: &WireProgress) -> (r: Vec<u8>)
    ensures
        r@ == msg.enc(),
{
    let mut out: Vec<u8> = Vec::new();
    msg.write(&mut out);
    out
}

/// Encodes one initialisation message.
pub fn encode_init(msg: &BackendInit) -> (r: Vec<u8>)
    ensures
        r@ == msg.enc(),
{
    let mut out: Vec<u8> = Vec::new();
    msg.write(&mut out);
    out
}

/// Decodes a request envelope.  Exactly the byte strings produced by
/// `encode_input` are accepted, and decoding then re-encoding gives the
/// input bytes back unchanged: the round trip is the identity on the wire.
pub fn decode_input(buf: &[u8]) -> (r: Option<BackendInput>)
    ensures
        (r matches Some(v) ==> v.enc() == buf@),
        forall|v: BackendInput| v.enc() == buf@ ==> (r matches Some(w) && w.enc() == v.enc()),
{
    proof {
        assert forall|v: BackendInput| v.enc() == buf@ implies (v.enc() + Seq::<u8>::empty())
            == buf@.skip(0) by {
            assert(v.enc() + Seq::<u8>::empty() =~= buf@.skip(0));
        }
    }
    match <BackendInput as Wire>::read(buf, 0) {
        None => None,
        Some((v, p)) => {
            if p == buf.len() {
                proof {
                    assert(buf@.skip(p as int).len() == 0);
                    assert(v.enc() =~= buf@);
                }
                Some(v)
            } else {
                proof {
                    assert forall|v2: BackendInput| v2.enc() != buf@ by {
                        if v2.enc() == buf@ {
                            assert(buf@.skip(p as int) == Seq::<u8>::empty());
                        }
                    }
                }
                None
            }
        },
    }
}

/// Decodes an initialisation message, accepting exactly the encodings.
pub fn decode_init(buf: &[u8]) -> (r: Option<BackendInit>)
    ensures
        (r matches Some(v) ==> v.enc() == buf@),
        forall|v: BackendInit| v.enc() == buf@ ==> (r matches Some(w) && w.enc() == v.enc()),
{
    proof {
        assert forall|v: BackendInit| v.enc() == buf@ implies (v.enc() + Seq::<u8>::empty())
            == buf@.skip(0) by {
            assert(v.enc() + Seq::<u8>::empty() =~= buf@.skip(0));
        }
    }
    match <BackendInit as Wire>::read(buf, 0) {
        None => None,
        Some((v, p)) => {
            if p == buf.len() {
                proof {
                    assert(buf@.skip(p as int).len() == 0);
                    assert(v.enc() =~= buf@);
                }
                Some(v)
            } else {
                proof {
                    assert forall|v2: BackendInit| v2.enc() != buf@ by {
                        if v2.enc() == buf@ {
                            assert(buf@.skip(p as int) == Seq::<u8>::empty());
                        }
                    }
                }
                None
            }
        },
    }
}

} // verus!
