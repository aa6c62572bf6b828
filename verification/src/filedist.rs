//! The file distributor: descriptors of announced files, the deduplicated
//! index they live in, and the integrity metadata (SHA-256 content hash,
//! HMAC-SHA256 signature over the canonical signing string).

use vstd::prelude::*;
use vstd::pervasive::VecAdditionalExecFns;
use crate::byteseq::{has_no_byte, find_byte_in, lemma_find_byte_characterization,
    append_bytes};
use crate::numtext::{dec_digits, u64_to_dec};
use crate::codec::{PIPE, Message, SpecMessage, wf_message, spec_payload, encode_payload};
use crate::wrappers::{sha256, sha256_of, hmac_sha256, hmac_sha256_of, hex_encode, hex_of};
use crate::MAX_FRAME_LEN;

verus! {

/// A descriptor of an announced file. The upload time travels and is held
/// as opaque text.
pub struct FileInfo {
    pub filename: String,
    pub file_type: String,
    pub file_size: u64,
    pub uploader_ip: String,
    pub upload_time: String,
}

/// Mathematical model of a `FileInfo`.
pub struct SpecFileInfo {
    pub filename: Seq<char>,
    pub file_type: Seq<char>,
    pub file_size: u64,
    pub uploader_ip: Seq<char>,
    pub upload_time: Seq<char>,
}

impl View for FileInfo {
    type V = SpecFileInfo;

    open spec fn view(&self) -> SpecFileInfo {
        SpecFileInfo {
            filename: self.filename@,
            file_type: self.file_type@,
            file_size: self.file_size,
            uploader_ip: self.uploader_ip@,
            upload_time: self.upload_time@,
        }
    }
}

impl Clone for FileInfo {
    fn clone(&self) -> (r: Self)
        ensures
            r@ == self@,
    {
        FileInfo {
            filename: self.filename.clone(),
            file_type: self.file_type.clone(),
            file_size: self.file_size,
            uploader_ip: self.uploader_ip.clone(),
            upload_time: self.upload_time.clone(),
        }
    }
}

/// Two descriptors describe the same file: same name, same uploader.
pub open spec fn same_key(a: SpecFileInfo, b: SpecFileInfo) -> bool {
    a.filename == b.filename && a.uploader_ip == b.uploader_ip
}

/// True when some descriptor in `s` has the key `(f, u)`.
pub open spec fn index_has_key(s: Seq<SpecFileInfo>, f: Seq<char>, u: Seq<char>) -> bool {
    exists|i: int| 0 <= i < s.len() && #[trigger] s[i].filename == f && s[i].uploader_ip == u
}

/// The index of the descriptor with key `(f, u)`.
pub open spec fn index_key_at(s: Seq<SpecFileInfo>, f: Seq<char>, u: Seq<char>) -> int {
    choose|i: int| 0 <= i < s.len() && #[trigger] s[i].filename == f && s[i].uploader_ip == u
}

/// No two descriptors share a key.
pub open spec fn no_dup_keys(s: Seq<SpecFileInfo>) -> bool {
    forall|i: int, j: int| 0 <= i < j < s.len() ==> !same_key(#[trigger] s[i], #[trigger] s[j])
}

/// What announcing a descriptor does: nothing when its key is present, an
/// appended entry when it is new. Metadata never displaces what is already
/// of record.
pub open spec fn spec_add_file(s: Seq<SpecFileInfo>, info: SpecFileInfo) -> Seq<SpecFileInfo> {
    if index_has_key(s, info.filename, info.uploader_ip) {
        s
    } else {
        s.push(info)
    }
}

/// What recording a received transfer does: the entry of record for the key
/// is replaced by (or becomes) this descriptor.
pub open spec fn spec_upsert_file(s: Seq<SpecFileInfo>, info: SpecFileInfo) -> Seq<SpecFileInfo> {
    if index_has_key(s, info.filename, info.uploader_ip) {
        s.update(index_key_at(s, info.filename, info.uploader_ip), info)
    } else {
        s.push(info)
    }
}

/// The announced-file index, deduplicated by (filename, uploader address).
pub struct AnnouncedFileIndex {
    pub files: Vec<FileInfo>,
}

/// The models of a vector of descriptors.
pub open spec fn file_views(s: Seq<FileInfo>) -> Seq<SpecFileInfo> {
    s.map_values(|f: FileInfo| f@)
}

impl View for AnnouncedFileIndex {
    type V = Seq<SpecFileInfo>;

    open spec fn view(&self) -> Seq<SpecFileInfo> {
        file_views(self.files@)
    }
}

impl AnnouncedFileIndex {
    /// No two entries share a key.
    pub open spec fn wf(&self) -> bool {
        no_dup_keys(self@)
    }

    /// The empty index.
    pub fn new() -> (r: AnnouncedFileIndex)
        ensures
            r.wf(),
            r@ == Seq::<SpecFileInfo>::empty(),
    {
        let r = AnnouncedFileIndex { files: Vec::new() };
        proof {
            assert(r@ =~= Seq::<SpecFileInfo>::empty());
        }
        r
    }

    /// Records an announced file: a key already present keeps its entry.
    pub fn add_announced_file(&mut self, info: FileInfo)
        requires
            old(self).wf(),
        ensures
            final(self).wf(),
            final(self)@ == spec_add_file(old(self)@, info@),
    {
        let mut i: usize = 0;
        while i < self.files.len()
            invariant
                0 <= i <= self.files@.len(),
                forall|j: int| 0 <= j < i ==> !same_key(#[trigger] self@[j], info@),
                self.files@ == old(self).files@,
                self.wf(),
            decreases self.files@.len() - i,
        {
            if self.files[i].filename == info.filename && self.files[i].uploader_ip
                == info.uploader_ip {
                proof {
                    assert(self@[i as int].filename == info@.filename);
                    assert(index_has_key(self@, info@.filename, info@.uploader_ip));
                }
                return;
            }
            i += 1;
        }
        proof {
            assert(!index_has_key(self@, info@.filename, info@.uploader_ip));
        }
        let ghost orig = self@;
        self.files.push(info);
        proof {
            assert(self@ =~= orig.push(info@));
            assert forall|a: int, b: int| 0 <= a < b < self@.len() implies !same_key(
                #[trigger] self@[a],
                #[trigger] self@[b],
            ) by {
                if b == orig.len() {
                    assert(self@[b] == info@);
                    assert(!same_key(orig[a], info@));
                }
            }
        }
    }

    /// Records a received transfer's descriptor: the key's entry of record
    /// is replaced, or created.
    pub fn upsert_announced_file(&mut self, info: FileInfo)
        requires
            old(self).wf(),
        ensures
            final(self).wf(),
            final(self)@ == spec_upsert_file(old(self)@, info@),
    {
        let mut i: usize = 0;
        while i < self.files.len()
            invariant
                0 <= i <= self.files@.len(),
                forall|j: int| 0 <= j < i ==> !same_key(#[trigger] self@[j], info@),
                self.files@ == old(self).files@,
                self.wf(),
            decreases self.files@.len() - i,
        {
            if self.files[i].filename == info.filename && self.files[i].uploader_ip
                == info.uploader_ip {
                let ghost orig = self@;
                proof {
                    assert(same_key(orig[i as int], info@));
                    assert(index_has_key(orig, info@.filename, info@.uploader_ip));
                    let k = index_key_at(orig, info@.filename, info@.uploader_ip);
                    assert(same_key(orig[k], info@));
                    assert(k == i as int);
                }
                self.files.set(i, info);
                proof {
                    assert(self@ =~= orig.update(i as int, info@));
                    assert forall|a: int, b: int| 0 <= a < b < self@.len() implies !same_key(
                        #[trigger] self@[a],
                        #[trigger] self@[b],
                    ) by {
                        assert(same_key(orig[a], self@[a]) || a == i);
                        if a == i as int {
                            assert(same_key(orig[a], info@));
                        }
                        if b == i as int {
                            assert(same_key(orig[b], info@));
                        }
                    }
                }
                return;
            }
            i += 1;
        }
        proof {
            assert(!index_has_key(self@, info@.filename, info@.uploader_ip));
        }
        let ghost orig = self@;
        self.files.push(info);
        proof {
            assert(self@ =~= orig.push(info@));
            assert forall|a: int, b: int| 0 <= a < b < self@.len() implies !same_key(
                #[trigger] self@[a],
                #[trigger] self@[b],
            ) by {
                if b == orig.len() {
                    assert(self@[b] == info@);
                    assert(!same_key(orig[a], info@));
                }
            }
        }
    }

    /// A copy of the index's descriptors.
    pub fn get_announced_files(&self) -> (r: Vec<FileInfo>)
        ensures
            file_views(r@) == self@,
    {
        let mut out: Vec<FileInfo> = Vec::new();
        let mut i: usize = 0;
        while i < self.files.len()
            invariant
                0 <= i <= self.files@.len(),
                out@.len() == i,
                forall|j: int| 0 <= j < i ==> #[trigger] out@[j]@ == self.files@[j]@,
            decreases self.files@.len() - i,
        {
            out.push(self.files[i].clone());
            i += 1;
        }
        proof {
            assert(file_views(out@) =~= self@);
        }
        out
    }
}

// ---------------------------------------------------------------------------
// Dedup and size-of-record laws
// ---------------------------------------------------------------------------
/// Recording metadata and transfers never yields two entries with one key:
/// whatever order announcements and transfers arrive in, an index without
/// duplicate keys keeps none.
pub proof fn lemma_index_stays_deduplicated(s: Seq<SpecFileInfo>, info: SpecFileInfo)
    requires
        no_dup_keys(s),
    ensures
        no_dup_keys(spec_add_file(s, info)),
        no_dup_keys(spec_upsert_file(s, info)),
        index_has_key(s, info.filename, info.uploader_ip) ==> spec_add_file(s, info).len()
            == s.len(),
        index_has_key(s, info.filename, info.uploader_ip) ==> spec_upsert_file(s, info).len()
            == s.len(),
{
    if index_has_key(s, info.filename, info.uploader_ip) {
        let k = index_key_at(s, info.filename, info.uploader_ip);
        assert(same_key(s[k], info));
        let t = s.update(k, info);
        assert forall|a: int, b: int| 0 <= a < b < t.len() implies !same_key(
            #[trigger] t[a],
            #[trigger] t[b],
        ) by {
            if a == k {
                assert(same_key(s[a], info));
                assert(same_key(t[a], s[a]));
            } else if b == k {
                assert(same_key(s[b], info));
                assert(same_key(t[b], s[b]));
            }
        }
    } else {
        let t = s.push(info);
        assert forall|a: int, b: int| 0 <= a < b < t.len() implies !same_key(
            #[trigger] t[a],
            #[trigger] t[b],
        ) by {
            if b == s.len() {
                assert(t[b] == info);
                assert(t[a] == s[a]);
                assert(!same_key(s[a], info));
            }
        }
    }
}

/// After a transfer is recorded, the entry of record for its key carries
/// exactly the transfer's byte count, whatever a metadata announcement
/// declared before or declares after.
pub proof fn lemma_transfer_size_is_of_record(s: Seq<SpecFileInfo>, info: SpecFileInfo)
    requires
        no_dup_keys(s),
    ensures
        index_has_key(spec_upsert_file(s, info), info.filename, info.uploader_ip),
        spec_upsert_file(s, info)[index_key_at(
            spec_upsert_file(s, info),
            info.filename,
            info.uploader_ip,
        )] == info,
        spec_add_file(spec_upsert_file(s, info), info) == spec_upsert_file(s, info),
{
    lemma_index_stays_deduplicated(s, info);
    let t = spec_upsert_file(s, info);
    if index_has_key(s, info.filename, info.uploader_ip) {
        let k = index_key_at(s, info.filename, info.uploader_ip);
        assert(same_key(s[k], info));
        assert(t[k] == info);
        assert(index_has_key(t, info.filename, info.uploader_ip));
        let k2 = index_key_at(t, info.filename, info.uploader_ip);
        assert(same_key(t[k2], info));
        assert(k2 == k);
    } else {
        let n = s.len() as int;
        assert(t[n] == info);
        assert(index_has_key(t, info.filename, info.uploader_ip));
        let k2 = index_key_at(t, info.filename, info.uploader_ip);
        assert(same_key(t[k2], info));
        assert(k2 == n) by {
            if k2 < n {
                assert(t[k2] == s[k2]);
                assert(index_has_key(s, info.filename, info.uploader_ip));
            }
        }
    }
}

// ---------------------------------------------------------------------------
// Integrity metadata
// ---------------------------------------------------------------------------
/// The canonical signing string: the five metadata fields, pipe-joined,
/// exactly as they travel.
pub open spec fn signing_bytes(
    filename: Seq<u8>,
    file_type: Seq<u8>,
    file_size: u64,
    sha256_hex: Seq<u8>,
    uploaded_at: Seq<u8>,
) -> Seq<u8> {
    filename + seq![PIPE] + file_type + seq![PIPE] + dec_digits(file_size as nat) + seq![PIPE]
        + sha256_hex + seq![PIPE] + uploaded_at
}

/// ASCII lowercase of one byte.
pub open spec fn lower_byte(b: u8) -> u8 {
    if 65 <= b <= 90 {
        (b + 32) as u8
    } else {
        b
    }
}

/// ASCII lowercase of a byte sequence.
pub open spec fn lower_bytes(s: Seq<u8>) -> Seq<u8> {
    s.map_values(|b: u8| lower_byte(b))
}

/// Signs the metadata: the lowercase hex HMAC-SHA256 tag of the signing
/// string under the shared secret.
pub fn sign_file_meta(
    secret: &Vec<u8>,
    filename: &Vec<u8>,
    file_type: &Vec<u8>,
    file_size: u64,
    sha256_hex: &Vec<u8>,
    uploaded_at: &Vec<u8>,
) -> (r: Vec<u8>)
    ensures
        r@ == hex_of(
            hmac_sha256_of(
                secret@,
                signing_bytes(filename@, file_type@, file_size, sha256_hex@, uploaded_at@),
            ),
        ),
{
    let mut payload: Vec<u8> = Vec::new();
    append_bytes(&mut payload, filename);
    payload.push(PIPE);
    append_bytes(&mut payload, file_type);
    payload.push(PIPE);
    let d = u64_to_dec(file_size);
    append_bytes(&mut payload, &d);
    payload.push(PIPE);
    append_bytes(&mut payload, sha256_hex);
    payload.push(PIPE);
    append_bytes(&mut payload, uploaded_at);
    proof {
        assert(payload@ =~= signing_bytes(
            filename@,
            file_type@,
            file_size,
            sha256_hex@,
            uploaded_at@,
        ));
    }
    let tag = hmac_sha256(secret, &payload);
    hex_encode(&tag)
}

/// Compares two byte runs up to ASCII case.
pub fn eq_ignore_ascii_case_bytes(a: &Vec<u8>, b: &Vec<u8>) -> (r: bool)
    ensures
        r == (lower_bytes(a@) == lower_bytes(b@)),
{
    if a.len() != b.len() {
        proof {
            assert(lower_bytes(a@).len() != lower_bytes(b@).len());
        }
        return false;
    }
    let mut i: usize = 0;
    while i < a.len()
        invariant
            0 <= i <= a@.len(),
            a@.len() == b@.len(),
            forall|j: int| 0 <= j < i ==> lower_byte(#[trigger] a@[j]) == lower_byte(b@[j]),
        decreases a@.len() - i,
    {
        let mut x = a[i];
        let mut y = b[i];
        if x >= 65 && x <= 90 {
            x = x + 32;
        }
        if y >= 65 && y <= 90 {
            y = y + 32;
        }
        if x != y {
            proof {
                assert(lower_bytes(a@)[i as int] != lower_bytes(b@)[i as int]);
            }
            return false;
        }
        i += 1;
    }
    proof {
        assert(lower_bytes(a@) =~= lower_bytes(b@));
    }
    true
}

/// Checks a received signature: the recomputed tag must match it up to
/// ASCII case.
pub fn verify_file_meta(
    secret: &Vec<u8>,
    filename: &Vec<u8>,
    file_type: &Vec<u8>,
    file_size: u64,
    sha256_hex: &Vec<u8>,
    uploaded_at: &Vec<u8>,
    hmac_hex: &Vec<u8>,
) -> (r: bool)
    ensures
        r == (lower_bytes(
            hex_of(
                hmac_sha256_of(
                    secret@,
                    signing_bytes(filename@, file_type@, file_size, sha256_hex@, uploaded_at@),
                ),
            ),
        ) == lower_bytes(hmac_hex@)),
{
    let expected = sign_file_meta(secret, filename, file_type, file_size, sha256_hex, uploaded_at);
    eq_ignore_ascii_case_bytes(&expected, hmac_hex)
}

/// Whether received metadata is trusted: with no secret provisioned every
/// announcement is taken at its word; with one, the recomputed tag must
/// match the received signature up to ASCII case. Untrusted metadata is
/// dropped outright, never recorded.
pub open spec fn meta_accepted(
    secret: Option<Seq<u8>>,
    filename: Seq<u8>,
    file_type: Seq<u8>,
    file_size: u64,
    sha256_hex: Seq<u8>,
    uploaded_at: Seq<u8>,
    hmac_hex: Seq<u8>,
) -> bool {
    match secret {
        None => true,
        Some(s) => lower_bytes(
            hex_of(
                hmac_sha256_of(
                    s,
                    signing_bytes(filename, file_type, file_size, sha256_hex, uploaded_at),
                ),
            ),
        ) == lower_bytes(hmac_hex),
    }
}

/// Hex text never holds the field delimiter.
pub proof fn lemma_hex_no_pipe(s: Seq<u8>)
    ensures
        has_no_byte(hex_of(s), PIPE),
        hex_of(s).len() == 2 * s.len(),
    decreases s.len(),
{
    if s.len() > 0 {
        lemma_hex_no_pipe(s.drop_first());
        let h = hex_of(s);
        assert forall|j: int| 0 <= j < h.len() implies h[j] != PIPE by {
            if j >= 2 {
                assert(h[j] == hex_of(s.drop_first())[j - 2]);
            }
        }
    }
}

/// Why an announcement could not be built.
#[derive(Clone, Copy, PartialEq, Eq, Structural, Debug)]
pub enum BuildError {
    /// A text field holds the field delimiter the framing depends on.
    DelimiterInField,
    /// The file does not fit under the frame ceiling.
    TooLarge,
}

/// Builds the metadata and transfer messages that announce a local file to
/// the mesh: the hash is of the full content, the signature (when a secret
/// is provisioned) covers the canonical signing string, and the declared
/// size is the content's true byte count.
pub fn build_file_announcement(
    filename: Vec<u8>,
    file_type: Vec<u8>,
    content: Vec<u8>,
    secret: &Option<Vec<u8>>,
    uploaded_at: Vec<u8>,
) -> (r: Result<(Message, Message), BuildError>)
    ensures
        ({
            let meta_spec = SpecMessage::FileMeta {
                filename: filename@,
                file_type: file_type@,
                file_size: content@.len() as u64,
                sha256_hex: hex_of(sha256_of(content@)),
                uploaded_at: uploaded_at@,
                hmac_hex: match secret {
                    Some(s) => hex_of(
                        hmac_sha256_of(
                            s@,
                            signing_bytes(
                                filename@,
                                file_type@,
                                content@.len() as u64,
                                hex_of(sha256_of(content@)),
                                uploaded_at@,
                            ),
                        ),
                    ),
                    None => Seq::empty(),
                },
            };
            let transfer_spec = SpecMessage::FileTransfer {
                filename: filename@,
                file_type: file_type@,
                file_size: content@.len() as u64,
                content: content@,
            };
            let clean = has_no_byte(filename@, PIPE) && has_no_byte(file_type@, PIPE)
                && has_no_byte(uploaded_at@, PIPE);
            let fits = spec_payload(meta_spec).len() <= MAX_FRAME_LEN && spec_payload(
                transfer_spec,
            ).len() <= MAX_FRAME_LEN;
            match r {
                Ok((meta, transfer)) => {
                    &&& clean
                    &&& fits
                    &&& wf_message(meta@)
                    &&& wf_message(transfer@)
                    &&& meta@ == meta_spec
                    &&& transfer@ == transfer_spec
                },
                Err(BuildError::DelimiterInField) => !clean,
                Err(BuildError::TooLarge) => clean && !fits,
            }
        }),
{
    if find_byte_in(&filename, PIPE).is_some() || find_byte_in(&file_type, PIPE).is_some()
        || find_byte_in(&uploaded_at, PIPE).is_some() {
        proof {
            lemma_find_byte_characterization(filename@, PIPE);
            lemma_find_byte_characterization(file_type@, PIPE);
            lemma_find_byte_characterization(uploaded_at@, PIPE);
        }
        return Err(BuildError::DelimiterInField);
    }
    proof {
        lemma_find_byte_characterization(filename@, PIPE);
        lemma_find_byte_characterization(file_type@, PIPE);
        lemma_find_byte_characterization(uploaded_at@, PIPE);
    }
    let file_size = content.len() as u64;
    let digest = sha256(&content);
    let sha256_hex = hex_encode(&digest);
    let hmac_hex: Vec<u8> = match secret {
        Some(s) => sign_file_meta(s, &filename, &file_type, file_size, &sha256_hex, &uploaded_at),
        None => Vec::new(),
    };
    proof {
        lemma_hex_no_pipe(sha256_of(content@));
        if let Some(s) = secret {
            lemma_hex_no_pipe(
                hmac_sha256_of(
                    s@,
                    signing_bytes(
                        filename@,
                        file_type@,
                        file_size,
                        hex_of(sha256_of(content@)),
                        uploaded_at@,
                    ),
                ),
            );
        }
    }
    let meta = Message::FileMeta {
        filename: filename.clone(),
        file_type: file_type.clone(),
        file_size,
        sha256_hex,
        uploaded_at,
        hmac_hex,
    };
    let transfer = Message::FileTransfer { filename, file_type, file_size, content };
    let meta_payload = encode_payload(&meta);
    if meta_payload.len() as u64 > MAX_FRAME_LEN {
        return Err(BuildError::TooLarge);
    }
    let transfer_payload = encode_payload(&transfer);
    if transfer_payload.len() as u64 > MAX_FRAME_LEN {
        return Err(BuildError::TooLarge);
    }
    Ok((meta, transfer))
}

} // verus!
