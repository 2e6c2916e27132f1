//! The image in a layout that `docker save` wrote.
//!
//! Which file to look at next, and what each one means, is decided here; the
//! looking is the caller's. A search asks for one file after the other and is
//! told what was there, until it has the manifest and every blob it names.
use vstd::prelude::*;
use vstd::string::*;

use crate::digest::{sha256, sha256_of};
use crate::number::{a_hex_digit, hex, hex_of, is_hex};
use crate::order::pairs;
use crate::path::{joined_path, under};
use crate::text::{characters, contains, holds, same, strip_prefix, without_prefix};
use crate::tree::{
    from_json_bytes, holdings, json_read_bytes, list_or_empty, member, text_member, text_or_empty,
    Holding, Tree,
};

verus! {

/// An image's manifest and the blobs it names, from an OCI image layout.
#[derive(Debug, Clone, PartialEq, Eq)]
pub struct Image {
    pub manifest: Vec<u8>,
    pub media_type: String,
    /// `sha256:<hex>` of the manifest: what a launch runs, never a tag.
    pub digest: String,
    /// The config and the layers, by digest, each a file in the layout.
    pub blobs: Vec<(String, String)>,
}

/// What an image is.
pub struct Pushable {
    pub manifest: Seq<u8>,
    pub media_type: Seq<char>,
    pub digest: Seq<char>,
    pub blobs: Seq<(Seq<char>, Seq<char>)>,
}

impl View for Image {
    type V = Pushable;

    open spec fn view(&self) -> Pushable {
        Pushable {
            manifest: self.manifest@,
            media_type: self.media_type@,
            digest: self.digest@,
            blobs: pairs(self.blobs@),
        }
    }
}

impl Image {
    /// The manifest's bytes, once more.
    pub fn manifest_again(&self) -> (bytes: Vec<u8>)
        ensures
            bytes@ == self.manifest@,
    {
        same_bytes(&self.manifest)
    }
}

// ── Where a blob is ──────────────────────────────────────────────────────────

/// Sixty-four hexadecimal digits.
pub open spec fn is_sha256_hex(s: Seq<char>) -> bool {
    s.len() == 64 && forall|i: int| 0 <= i < s.len() ==> is_hex(#[trigger] s[i])
}

/// The file in the layout that a digest names, or why it names none.
pub open spec fn blob_file(layout: Seq<char>, digest: Seq<char>) -> Result<Seq<char>, Seq<char>> {
    match strip_prefix(digest, "sha256:"@) {
        Some(hex) => if is_sha256_hex(hex) {
            Ok(under(layout, "blobs/sha256/"@ + hex))
        } else {
            Err(digest + " is not a sha256 digest"@)
        },
        None => Err(digest + " is not a sha256 digest"@),
    }
}

/// A digest is never a path: what it names is a file of the layout's own
/// directory of blobs, called by hexadecimal digits alone.
pub proof fn a_digest_is_never_a_path(layout: Seq<char>, digest: Seq<char>)
    ensures
        blob_file(layout, digest) matches Ok(path) ==> exists|hex: Seq<char>|
            is_sha256_hex(hex) && !hex.contains('/') && !hex.contains('.') && digest
                == "sha256:"@ + hex && path == #[trigger] under(layout, "blobs/sha256/"@ + hex),
{
    if let Ok(path) = blob_file(layout, digest) {
        let hex = strip_prefix(digest, "sha256:"@)->0;
        assert(digest =~= "sha256:"@ + hex);
        assert forall|i: int| 0 <= i < hex.len() implies hex[i] != '/' && hex[i] != '.' by {
            assert(is_hex(hex[i]));
        }
        assert(path == under(layout, "blobs/sha256/"@ + hex));
    }
}

/// A digest names a file exactly where it is `sha256:` and sixty-four
/// hexadecimal digits, of either case; what is too short, too long, or holds
/// anything else names none.
pub proof fn a_digest_is_sixty_four_hexadecimal_digits(layout: Seq<char>, hex: Seq<char>)
    ensures
        blob_file(layout, "sha256:"@ + hex) is Ok <==> hex.len() == 64 && forall|i: int|
            0 <= i < hex.len() ==> ('0' <= #[trigger] hex[i] <= '9' || 'a' <= hex[i] <= 'f' || 'A'
                <= hex[i] <= 'F'),
        blob_file(layout, "sha256:"@ + hex) matches Err(why) ==> why == "sha256:"@ + hex
            + " is not a sha256 digest"@,
        !"sha256:"@.is_prefix_of(hex) ==> blob_file(layout, hex) == Err::<Seq<char>, Seq<char>>(
            hex + " is not a sha256 digest"@,
        ),
{
    crate::text::what_a_text_starts_with_is_taken_off(hex, "sha256:"@, hex);
    if is_sha256_hex(hex) {
        assert forall|i: int| 0 <= i < hex.len() implies ('0' <= #[trigger] hex[i] <= '9' || 'a'
            <= hex[i] <= 'f' || 'A' <= hex[i] <= 'F') by {
            assert(is_hex(hex[i]));
        }
    } else if hex.len() == 64 {
        let i = choose|i: int| 0 <= i < hex.len() && !is_hex(#[trigger] hex[i]);
        assert(!('0' <= hex[i] <= '9' || 'a' <= hex[i] <= 'f' || 'A' <= hex[i] <= 'F'));
    }
}

fn hex_only(s: &str) -> (r: bool)
    ensures
        r == is_sha256_hex(s@),
{
    let whole = characters(s);
    if whole.len() != 64 {
        return false;
    }
    let mut i: usize = 0;
    while i < 64
        invariant
            i <= 64,
            whole@.len() == 64,
            whole@ == s@,
            forall|j: int| 0 <= j < i ==> is_hex(#[trigger] whole@[j]),
        decreases 64 - i,
    {
        if !a_hex_digit(whole[i]) {
            return false;
        }
        i += 1;
    }
    true
}

/// The file in the layout that a digest names.
pub fn blob_path(layout: &str, digest: &str) -> (r: Result<String, String>)
    ensures
        match r {
            Ok(path) => blob_file(layout@, digest@) == Ok::<Seq<char>, Seq<char>>(path@),
            Err(why) => blob_file(layout@, digest@) == Err::<Seq<char>, Seq<char>>(why@),
        },
{
    if let Some(hex) = without_prefix(digest, "sha256:") {
        if hex_only(hex.as_str()) {
            let mut name = "blobs/sha256/".to_owned();
            name.append(hex.as_str());
            return Ok(joined_path(layout, name.as_str()));
        }
    }
    let mut why = digest.to_owned();
    why.append(" is not a sha256 digest");
    Err(why)
}

/// What a file of the layout holds, or why it could not be read.
pub open spec fn file_holding(path: Seq<char>, bytes: Seq<u8>) -> Result<Holding, Seq<char>> {
    match json_read_bytes(bytes) {
        Ok(held) => Ok(held),
        Err(failed) => Err(path + " is not JSON: "@ + failed),
    }
}

/// What a file of the layout holds.
pub fn read_json(path: &str, bytes: &[u8]) -> (r: Result<Tree, String>)
    ensures
        crate::catalogue::reading(r) == file_holding(path@, bytes@),
{
    match from_json_bytes(bytes) {
        Ok(tree) => Ok(tree),
        Err(failed) => {
            let mut why = path.to_owned();
            why.append(" is not JSON: ");
            why.append(failed.as_str());
            Err(why)
        },
    }
}

// ── The search ───────────────────────────────────────────────────────────────

/// What an index says of one of its manifests.
#[derive(Debug)]
pub struct Descriptor {
    pub digest: String,
    pub media_type: Option<String>,
}

/// The texts of a descriptor.
pub struct Named {
    pub digest: Seq<char>,
    pub media_type: Option<Seq<char>>,
}

impl View for Descriptor {
    type V = Named;

    open spec fn view(&self) -> Named {
        Named {
            digest: self.digest@,
            media_type: optional(self.media_type),
        }
    }
}

/// The text of an optional string.
pub open spec fn optional(said: Option<String>) -> Option<Seq<char>> {
    match said {
        Some(said) => Some(said@),
        None => None,
    }
}

/// The texts of descriptors, in order.
pub open spec fn named(list: Seq<Descriptor>) -> Seq<Named> {
    Seq::new(list.len(), |i: int| list[i]@)
}

/// The manifests that an index names, in order.
pub open spec fn manifests(index: Holding) -> Seq<Named> {
    let items = list_or_empty(index, "manifests"@);
    Seq::new(
        items.len(),
        |i: int|
            Named {
                digest: text_or_empty(items[i], "digest"@),
                media_type: text_member(items[i], "mediaType"@),
            },
    )
}

/// The blobs that a manifest names: its config, then its layers, each by the
/// digest it gives, if it gives one.
pub open spec fn named_blobs(manifest: Holding) -> Seq<Option<Seq<char>>> {
    let layers = list_or_empty(manifest, "layers"@);
    seq![
        match member(manifest, "config"@) {
            Some(config) => text_member(config, "digest"@),
            None => None,
        },
    ] + Seq::new(layers.len(), |i: int| text_member(layers[i], "digest"@))
}

/// The media type of a document that a descriptor named: its own, or else the
/// descriptor's.
pub open spec fn media_type(manifest: Holding, descriptor: Named) -> Seq<char> {
    match text_member(manifest, "mediaType"@) {
        Some(said) => said,
        None => match descriptor.media_type {
            Some(said) => said,
            None => Seq::empty(),
        },
    }
}

/// A media type that says a document names manifests rather than blobs.
pub open spec fn names_manifests(media_type: Seq<char>) -> bool {
    holds(media_type, "index"@) || holds(media_type, "manifest.list"@)
}

/// How far a search has come.
pub enum Stage {
    /// Nothing has been read.
    Opening,
    /// These are still to be looked at, in order.
    Looking(Seq<Named>),
    /// The manifest is found; these are the blobs it names, and these of them
    /// are known to be there.
    Gathering {
        manifest: Seq<u8>,
        media_type: Seq<char>,
        digest: Seq<char>,
        named: Seq<Option<Seq<char>>>,
        there: Seq<(Seq<char>, Seq<char>)>,
    },
}

/// What a search needs next.
pub enum Need {
    /// What the layout's index holds, which must be there.
    Index(Seq<char>),
    /// What this file holds, if it is there.
    File(Seq<char>),
    /// Whether this file is there.
    Presence(Seq<char>),
    /// Nothing: this is the image.
    Nothing(Pushable),
    /// Nothing: this is why there is none.
    Refused(Seq<char>),
}

/// What was found where a file was looked for.
pub enum Lookup {
    Absent,
    Failed(Seq<char>),
    Bytes(Seq<u8>),
}

/// What a search needs next.
pub open spec fn need(layout: Seq<char>, stage: Stage) -> Need {
    match stage {
        Stage::Opening => Need::Index(under(layout, "index.json"@)),
        Stage::Looking(waiting) => if waiting.len() == 0 {
            Need::Refused("the saved image holds no manifest this can push"@)
        } else {
            match blob_file(layout, waiting[0].digest) {
                Ok(path) => Need::File(path),
                Err(why) => Need::Refused(why),
            }
        },
        Stage::Gathering { manifest, media_type, digest, named, there } => if there.len()
            >= named.len() {
            Need::Nothing(Pushable { manifest, media_type, digest, blobs: there })
        } else {
            match named[there.len() as int] {
                Some(blob) => match blob_file(layout, blob) {
                    Ok(path) => Need::Presence(path),
                    Err(why) => Need::Refused(why),
                },
                None => Need::Refused("a manifest names a blob with no digest"@),
            }
        },
    }
}

/// What a document that a descriptor named means for the search: manifests to
/// look at first, or the manifest itself, if the hash of its bytes is what it is
/// called.
pub open spec fn weighed(
    descriptor: Named,
    rest: Seq<Named>,
    bytes: Seq<u8>,
    hash: Seq<u8>,
    held: Holding,
) -> Result<Stage, Seq<char>> {
    let media_type = media_type(held, descriptor);
    if names_manifests(media_type) {
        Ok(Stage::Looking(manifests(held) + rest))
    } else if "sha256:"@ + hex(hash) != descriptor.digest {
        Err("the manifest's bytes are not "@ + descriptor.digest)
    } else {
        Ok(
            Stage::Gathering {
                manifest: bytes,
                media_type,
                digest: descriptor.digest,
                named: named_blobs(held),
                there: Seq::empty(),
            },
        )
    }
}

/// The search after the layout's index was seen to hold this.
pub open spec fn after_opening(stage: Stage, held: Holding) -> Stage {
    match stage {
        Stage::Opening => Stage::Looking(manifests(held)),
        _ => stage,
    }
}

/// The search after the file of the first descriptor was seen to be these
/// bytes, which hash to this and hold this.
pub open spec fn after_looking(
    stage: Stage,
    bytes: Seq<u8>,
    hash: Seq<u8>,
    held: Holding,
) -> Result<Stage, Seq<char>> {
    match stage {
        Stage::Looking(waiting) if waiting.len() > 0 => weighed(
            waiting[0],
            waiting.skip(1),
            bytes,
            hash,
            held,
        ),
        _ => Ok(stage),
    }
}

/// The search after the layout's index was read.
pub open spec fn after_index(
    layout: Seq<char>,
    stage: Stage,
    read: Result<Seq<u8>, Seq<char>>,
) -> Result<Stage, Seq<char>> {
    match need(layout, stage) {
        Need::Index(path) => match read {
            Ok(bytes) => match file_holding(path, bytes) {
                Ok(held) => Ok(after_opening(stage, held)),
                Err(why) => Err(why),
            },
            Err(failed) => Err(path + " could not be read: "@ + failed),
        },
        _ => Ok(stage),
    }
}

/// The search after a file was looked for.
pub open spec fn after_file(layout: Seq<char>, stage: Stage, found: Lookup) -> Result<
    Stage,
    Seq<char>,
> {
    match (stage, need(layout, stage)) {
        (Stage::Looking(waiting), Need::File(path)) => match found {
            Lookup::Absent => Ok(Stage::Looking(waiting.skip(1))),
            Lookup::Failed(failed) => Err(path + " could not be read: "@ + failed),
            Lookup::Bytes(bytes) => match file_holding(path, bytes) {
                Ok(held) => after_looking(stage, bytes, sha256(bytes), held),
                Err(why) => Err(why),
            },
        },
        _ => Ok(stage),
    }
}

/// The search after it was seen whether a blob is there.
pub open spec fn after_presence(layout: Seq<char>, stage: Stage, present: bool) -> Result<
    Stage,
    Seq<char>,
> {
    match (stage, need(layout, stage)) {
        (
            Stage::Gathering { manifest, media_type, digest, named, there },
            Need::Presence(path),
        ) => {
            let blob = named[there.len() as int]->0;
            if present {
                Ok(
                    Stage::Gathering {
                        manifest,
                        media_type,
                        digest,
                        named,
                        there: there.push((blob, path)),
                    },
                )
            } else {
                Err("the layout does not hold "@ + blob)
            }
        },
        _ => Ok(stage),
    }
}

/// What was found is what a layout's files hold.
pub open spec fn truly(files: Map<Seq<char>, Seq<u8>>, path: Seq<char>, found: Lookup) -> bool {
    match found {
        Lookup::Absent => !files.dom().contains(path),
        Lookup::Failed(_) => true,
        Lookup::Bytes(bytes) => files.dom().contains(path) && files[path] == bytes,
    }
}

/// A file of the layout, called by a digest.
pub open spec fn named_file(
    layout: Seq<char>,
    files: Map<Seq<char>, Seq<u8>>,
    digest: Seq<char>,
    path: Seq<char>,
) -> bool {
    blob_file(layout, digest) == Ok::<Seq<char>, Seq<char>>(path) && files.dom().contains(path)
}

/// What has been gathered is what the manifest names, in order, each blob with
/// its file; and the manifest is the file its digest names, and hashes to it.
pub open spec fn sound(layout: Seq<char>, files: Map<Seq<char>, Seq<u8>>, stage: Stage) -> bool {
    match stage {
        Stage::Opening => true,
        Stage::Looking(_) => true,
        Stage::Gathering { manifest, media_type, digest, named, there } => {
            &&& digest == "sha256:"@ + hex(sha256(manifest))
            &&& exists|path: Seq<char>| #[trigger]
                named_file(layout, files, digest, path) && files[path] == manifest
            &&& !names_manifests(media_type)
            &&& there.len() <= named.len()
            &&& forall|i: int|
                0 <= i < there.len() ==> named[i] == Some((#[trigger] there[i]).0) && named_file(
                    layout,
                    files,
                    there[i].0,
                    there[i].1,
                )
        },
    }
}

/// A search that is told the truth stays sound.
pub proof fn a_search_stays_sound(
    layout: Seq<char>,
    files: Map<Seq<char>, Seq<u8>>,
    stage: Stage,
    read: Result<Seq<u8>, Seq<char>>,
    found: Lookup,
    present: bool,
)
    requires
        sound(layout, files, stage),
        need(layout, stage) matches Need::File(path) ==> truly(files, path, found),
        need(layout, stage) matches Need::Presence(path) ==> present == files.dom().contains(path),
    ensures
        after_index(layout, stage, read) matches Ok(next) ==> sound(layout, files, next),
        after_file(layout, stage, found) matches Ok(next) ==> sound(layout, files, next),
        after_presence(layout, stage, present) matches Ok(next) ==> sound(layout, files, next),
{
    if let Ok(next) = after_presence(layout, stage, present) {
        if let (Need::Presence(path), Stage::Gathering { there, named, .. }) = (
            need(layout, stage),
            stage,
        ) {
            let blob = named[there.len() as int]->0;
            assert(named_file(layout, files, blob, path));
            let grown = there.push((blob, path));
            assert forall|i: int| 0 <= i < grown.len() implies named[i] == Some(
                (#[trigger] grown[i]).0,
            ) && named_file(layout, files, grown[i].0, grown[i].1) by {
                if i < there.len() {
                    assert(grown[i] == there[i]);
                }
            }
            let own = choose|own: Seq<char>| #[trigger]
                named_file(layout, files, stage->digest, own) && files[own] == stage->manifest;
            assert(named_file(layout, files, next->digest, own));
            assert(next->there == grown);
            assert(sound(layout, files, next));
        }
    }
    if let Ok(next) = after_file(layout, stage, found) {
        if let Need::File(path) = need(layout, stage) {
            if let Stage::Gathering { manifest, digest, .. } = next {
                assert(named_file(layout, files, digest, path) && files[path] == manifest);
            }
        }
    }
}

/// The image that a search yields is the manifest that its digest names in the
/// layout and that hashes to that digest, with the blobs it names, in order,
/// each of them a file of the layout.
pub proof fn the_image_is_what_it_is_called(
    layout: Seq<char>,
    files: Map<Seq<char>, Seq<u8>>,
    stage: Stage,
)
    requires
        sound(layout, files, stage),
    ensures
        need(layout, stage) matches Need::Nothing(image) ==> {
            &&& image.digest == "sha256:"@ + hex(sha256(image.manifest))
            &&& exists|path: Seq<char>| #[trigger]
                named_file(layout, files, image.digest, path) && files[path] == image.manifest
            &&& stage matches Stage::Gathering { named, .. } && image.blobs.len() == named.len()
            &&& forall|i: int|
                0 <= i < image.blobs.len() ==> stage->named[i] == Some(
                    (#[trigger] image.blobs[i]).0,
                ) && named_file(layout, files, image.blobs[i].0, image.blobs[i].1)
        },
{
}

// ── What a search takes from the documents ───────────────────────────────────

/// The layers that a manifest lists.
pub open spec fn layers_of(held: Holding) -> Seq<Holding> {
    match member(held, "layers"@) {
        Some(Holding::List(items)) => items,
        _ => Seq::empty(),
    }
}

/// This is the digest that a part gives, where there is the part and it gives
/// one.
pub open spec fn gives(part: Option<Holding>, digest: Option<Seq<char>>) -> bool {
    match digest {
        Some(digest) => part matches Some(part) && member(part, "digest"@) == Some(
            Holding::Text(digest),
        ),
        None => part matches Some(part) ==> !(member(part, "digest"@) matches Some(
            Holding::Text(_),
        )),
    }
}

/// These are a blob for the config and one for every layer, each by the digest
/// that the document gives it.
pub open spec fn names_each(held: Holding, blobs: Seq<Option<Seq<char>>>) -> bool {
    &&& blobs.len() == layers_of(held).len() + 1
    &&& gives(member(held, "config"@), blobs[0])
    &&& forall|i: int|
        0 <= i < layers_of(held).len() ==> gives(Some(#[trigger] layers_of(held)[i]), blobs[i + 1])
}

/// What is gathered is what the manifest's own bytes name.
pub open spec fn faithful(stage: Stage) -> bool {
    match stage {
        Stage::Opening => true,
        Stage::Looking(_) => true,
        Stage::Gathering { manifest, named, there, .. } => {
            &&& json_read_bytes(manifest) matches Ok(held) && names_each(held, named)
            &&& there.len() <= named.len()
            &&& forall|i: int| 0 <= i < there.len() ==> named[i] == Some((#[trigger] there[i]).0)
        },
    }
}

/// Whatever a search is told, what it gathers stays what the manifest's own
/// bytes name.
pub proof fn what_is_gathered_is_what_the_manifest_names(
    layout: Seq<char>,
    stage: Stage,
    read: Result<Seq<u8>, Seq<char>>,
    found: Lookup,
    present: bool,
)
    requires
        faithful(stage),
    ensures
        after_index(layout, stage, read) matches Ok(next) ==> faithful(next),
        after_file(layout, stage, found) matches Ok(next) ==> faithful(next),
        after_presence(layout, stage, present) matches Ok(next) ==> faithful(next),
{
    if let (Stage::Gathering { named, there, .. }, Ok(next)) = (
        stage,
        after_presence(layout, stage, present),
    ) {
        if let Need::Presence(path) = need(layout, stage) {
            let grown = there.push((named[there.len() as int]->0, path));
            assert forall|i: int| 0 <= i < grown.len() implies named[i] == Some(
                (#[trigger] grown[i]).0,
            ) by {
                if i < there.len() {
                    assert(grown[i] == there[i]);
                }
            }
        }
    }
    if let (Stage::Looking(waiting), Lookup::Bytes(bytes)) = (stage, found) {
        if let Ok(held) = json_read_bytes(bytes) {
            let all = named_blobs(held);
            assert(names_each(held, all)) by {
                assert forall|i: int| 0 <= i < layers_of(held).len() implies gives(
                    Some(#[trigger] layers_of(held)[i]),
                    all[i + 1],
                ) by {}
            }
        }
    }
}

/// An image has a blob for its config and one for every layer: the document that
/// its manifest's bytes read as gives the first blob's digest as its config's,
/// and the digest of each further one as that layer's, and there are no others.
pub proof fn an_image_has_a_blob_for_its_config_and_for_every_layer(
    layout: Seq<char>,
    stage: Stage,
)
    requires
        faithful(stage),
    ensures
        need(layout, stage) matches Need::Nothing(image) ==> {
            &&& json_read_bytes(image.manifest) matches Ok(held)
            &&& image.blobs.len() == layers_of(held).len() + 1
            &&& member(held, "config"@) matches Some(config) && member(config, "digest"@) == Some(
                Holding::Text(image.blobs[0].0),
            )
            &&& forall|i: int|
                0 <= i < layers_of(held).len() ==> member(
                    #[trigger] layers_of(held)[i],
                    "digest"@,
                ) == Some(Holding::Text(image.blobs[i + 1].0))
        },
{
    if let (Need::Nothing(image), Stage::Gathering { manifest, named, .. }) = (
        need(layout, stage),
        stage,
    ) {
        let held = json_read_bytes(manifest)->Ok_0;
        assert(names_each(held, named));
        assert(named[0] == Some(image.blobs[0].0));
        assert forall|i: int| 0 <= i < layers_of(held).len() implies member(
            #[trigger] layers_of(held)[i],
            "digest"@,
        ) == Some(Holding::Text(image.blobs[i + 1].0)) by {
            assert(gives(Some(layers_of(held)[i]), named[i + 1]));
            assert(named[i + 1] == Some(image.blobs[i + 1].0));
        }
    }
}

/// A blob that is there is taken, with its file, behind those that were, and one
/// that is not there ends the search. A blob is asked about wherever its digest
/// is one, and the image is done exactly where none is left.
pub proof fn every_blob_that_is_there_is_taken(layout: Seq<char>, stage: Stage, hex: Seq<char>)
    requires
        stage is Gathering,
        stage->there.len() < stage->named.len(),
        stage->named[stage->there.len() as int] == Some("sha256:"@ + hex),
        is_sha256_hex(hex),
    ensures
        ({
            let path = under(layout, "blobs/sha256/"@ + hex);
            &&& need(layout, stage) == Need::Presence(path)
            &&& after_presence(layout, stage, false) is Err
            &&& after_presence(layout, stage, true) matches Ok(next)
            &&& next is Gathering
            &&& next->manifest == stage->manifest
            &&& next->Gathering_media_type == stage->Gathering_media_type
            &&& next->Gathering_digest == stage->Gathering_digest
            &&& next->named == stage->named
            &&& next->there == stage->there + seq![("sha256:"@ + hex, path)]
            &&& next->there.len() == next->named.len() ==> need(layout, next) == Need::Nothing(
                Pushable {
                    manifest: stage->manifest,
                    media_type: stage->Gathering_media_type,
                    digest: stage->Gathering_digest,
                    blobs: next->there,
                },
            )
        }),
{
    let blob = "sha256:"@ + hex;
    assert(blob.take("sha256:"@.len() as int) =~= "sha256:"@);
    assert(blob.skip("sha256:"@.len() as int) =~= hex);
}

/// The manifests that a document lists.
pub open spec fn listed_in(held: Holding) -> Seq<Holding> {
    match member(held, "manifests"@) {
        Some(Holding::List(items)) => items,
        _ => Seq::empty(),
    }
}

/// The manifests that a document lists, each by what the document gives of it.
pub open spec fn lists(held: Holding, list: Seq<Named>) -> bool {
    let items = listed_in(held);
    &&& list.len() == items.len()
    &&& forall|i: int|
        0 <= i < items.len() ==> (member(#[trigger] items[i], "digest"@) == Some(
            Holding::Text(list[i].digest),
        ) || list[i].digest.len() == 0 && !(member(items[i], "digest"@) matches Some(
            Holding::Text(_),
        ))) && (match list[i].media_type {
            Some(said) => member(items[i], "mediaType"@) == Some(Holding::Text(said)),
            None => !(member(items[i], "mediaType"@) matches Some(Holding::Text(_))),
        })
}

/// A document is of this media type: the one it gives itself, or else the one
/// that it was listed with.
pub open spec fn is_typed(held: Holding, listed: Named, said: Seq<char>) -> bool {
    ||| member(held, "mediaType"@) == Some(Holding::Text(said))
    ||| !(member(held, "mediaType"@) matches Some(Holding::Text(_))) && (listed.media_type == Some(
        said,
    ) || listed.media_type is None && said.len() == 0)
}

/// What the layout's index lists is looked at, in order. Of what is looked at, a
/// document that lists manifests has them looked at next, in order, ahead of
/// what was waiting; any other is the manifest, if it hashes to what it is
/// listed as, and is refused if it does not; and one that is not there is passed
/// over.
pub proof fn documents_are_looked_at_in_the_order_they_are_listed(
    layout: Seq<char>,
    waiting: Seq<Named>,
    hex_digits: Seq<char>,
    bytes: Seq<u8>,
    held: Holding,
    said: Seq<char>,
)
    requires
        waiting.len() > 0,
        waiting[0].digest == "sha256:"@ + hex_digits,
        is_sha256_hex(hex_digits),
        is_typed(held, waiting[0], said),
    ensures
        json_read_bytes(bytes) == Ok::<Holding, Seq<char>>(held) ==> {
            &&& after_index(layout, Stage::Opening, Ok(bytes)) matches Ok(Stage::Looking(list))
                && lists(held, list)
            &&& match after_file(layout, Stage::Looking(waiting), Lookup::Bytes(bytes)) {
                Ok(Stage::Looking(list)) => {
                    &&& holds(said, "index"@) || holds(said, "manifest.list"@)
                    &&& list.len() >= waiting.len() - 1
                    &&& lists(held, list.take(list.len() - waiting.len() + 1))
                    &&& list.skip(list.len() - waiting.len() + 1) == waiting.skip(1)
                },
                Ok(next) => {
                    &&& !holds(said, "index"@) && !holds(said, "manifest.list"@)
                    &&& next is Gathering
                    &&& next->manifest == bytes
                    &&& next->Gathering_media_type == said
                    &&& next->Gathering_digest == "sha256:"@ + hex(sha256(bytes))
                    &&& next->Gathering_digest == waiting[0].digest
                    &&& next->there.len() == 0
                },
                Err(_) => !holds(said, "index"@) && !holds(said, "manifest.list"@)
                    && waiting[0].digest != "sha256:"@ + hex(sha256(bytes)),
            }
        },
        need(layout, Stage::Looking(waiting)) == Need::File(
            under(layout, "blobs/sha256/"@ + hex_digits),
        ),
        after_file(layout, Stage::Looking(waiting), Lookup::Absent) == Ok::<Stage, Seq<char>>(
            Stage::Looking(waiting.skip(1)),
        ),
        need(layout, Stage::Looking(Seq::empty())) is Refused,
        need(layout, Stage::Opening) == Need::Index(under(layout, "index.json"@)),
{
    let digest = waiting[0].digest;
    assert(digest.take("sha256:"@.len() as int) =~= "sha256:"@);
    assert(digest.skip("sha256:"@.len() as int) =~= hex_digits);
    let list = manifests(held) + waiting.skip(1);
    assert(lists(held, manifests(held)));
    assert(list.take(list.len() - waiting.len() + 1) =~= manifests(held));
    assert(list.skip(list.len() - waiting.len() + 1) =~= waiting.skip(1));
    assert(media_type(held, waiting[0]) =~= said);
}

/// A search's stage, as it is kept.
#[derive(Debug)]
enum Kept {
    Opening,
    Looking(Vec<Descriptor>),
    Gathering {
        manifest: Vec<u8>,
        media_type: String,
        digest: String,
        named: Vec<Option<String>>,
        there: Vec<(String, String)>,
    },
}

/// The texts of optional strings, in order.
pub open spec fn optionals(list: Seq<Option<String>>) -> Seq<Option<Seq<char>>> {
    Seq::new(list.len(), |i: int| optional(list[i]))
}

impl View for Kept {
    type V = Stage;

    closed spec fn view(&self) -> Stage {
        match self {
            Kept::Opening => Stage::Opening,
            Kept::Looking(waiting) => Stage::Looking(named(waiting@)),
            Kept::Gathering { manifest, media_type, digest, named, there } => Stage::Gathering {
                manifest: manifest@,
                media_type: media_type@,
                digest: digest@,
                named: optionals(named@),
                there: pairs(there@),
            },
        }
    }
}

/// A search for the image in a layout.
#[derive(Debug)]
pub struct Search {
    layout: String,
    kept: Kept,
}

/// What a search asks for.
#[derive(Debug)]
pub enum Ask {
    /// What the layout's index, at this path, holds.
    Index(String),
    /// What the file at this path holds, if it is there.
    File(String),
    /// Whether there is a file at this path.
    Presence(String),
    /// Nothing: this is the image.
    Nothing(Image),
    /// Nothing: this is why there is none.
    Refused(String),
}

impl View for Ask {
    type V = Need;

    open spec fn view(&self) -> Need {
        match self {
            Ask::Index(path) => Need::Index(path@),
            Ask::File(path) => Need::File(path@),
            Ask::Presence(path) => Need::Presence(path@),
            Ask::Nothing(image) => Need::Nothing(image@),
            Ask::Refused(why) => Need::Refused(why@),
        }
    }
}

/// What was found where a file was looked for.
#[derive(Debug)]
pub enum Found {
    Absent,
    Failed(String),
    Bytes(Vec<u8>),
}

impl View for Found {
    type V = Lookup;

    open spec fn view(&self) -> Lookup {
        match self {
            Found::Absent => Lookup::Absent,
            Found::Failed(failed) => Lookup::Failed(failed@),
            Found::Bytes(bytes) => Lookup::Bytes(bytes@),
        }
    }
}

/// What reading a file gave.
pub open spec fn bytes_read(read: Result<Vec<u8>, String>) -> Result<Seq<u8>, Seq<char>> {
    match read {
        Ok(bytes) => Ok(bytes@),
        Err(failed) => Err(failed@),
    }
}

/// How far a search came, or why it ended.
pub open spec fn progress(r: Result<Search, String>) -> Result<Stage, Seq<char>> {
    match r {
        Ok(search) => Ok(search.stage()),
        Err(why) => Err(why@),
    }
}

/// The manifests that an index names.
fn manifests_in(index: &Tree) -> (out: Vec<Descriptor>)
    ensures
        named(out@) == manifests(index@),
{
    let mut out: Vec<Descriptor> = Vec::new();
    if let Some(items) = index.list_at("manifests") {
        let mut i: usize = 0;
        while i < items.len()
            invariant
                i <= items@.len(),
                list_or_empty(index@, "manifests"@) == holdings(items@),
                named(out@) =~= manifests(index@).take(i as int),
            decreases items@.len() - i,
        {
            let ghost before = named(out@);
            let descriptor = Descriptor {
                digest: items[i].text_or_nothing("digest"),
                media_type: items[i].text_at("mediaType"),
            };
            assert(descriptor@ == manifests(index@)[i as int]);
            out.push(descriptor);
            assert(named(out@) =~= before.push(manifests(index@)[i as int]));
            i += 1;
        }
        assert(named(out@) =~= manifests(index@));
    } else {
        assert(named(out@) =~= manifests(index@));
    }
    out
}

/// The blobs that a manifest names.
fn blobs_in(manifest: &Tree) -> (out: Vec<Option<String>>)
    ensures
        optionals(out@) == named_blobs(manifest@),
{
    let mut out: Vec<Option<String>> = Vec::new();
    let config = match manifest.get("config") {
        Some(config) => config.text_at("digest"),
        None => None,
    };
    out.push(config);
    let ghost all = named_blobs(manifest@);
    assert(optionals(out@) =~= all.take(1));
    if let Some(layers) = manifest.list_at("layers") {
        let mut i: usize = 0;
        while i < layers.len()
            invariant
                i <= layers@.len(),
                list_or_empty(manifest@, "layers"@) == holdings(layers@),
                all == named_blobs(manifest@),
                optionals(out@) =~= all.take(i + 1),
            decreases layers@.len() - i,
        {
            let ghost before = optionals(out@);
            let digest = layers[i].text_at("digest");
            assert(optional(digest) == all[i + 1]);
            out.push(digest);
            assert(optionals(out@) =~= before.push(all[i + 1]));
            i += 1;
        }
        assert(optionals(out@) =~= all);
    } else {
        assert(optionals(out@) =~= all);
    }
    out
}

/// What a document that a descriptor named means for a search, given what the
/// document hashes to and what it holds.
fn weigh(
    descriptor: Descriptor,
    rest: Vec<Descriptor>,
    bytes: Vec<u8>,
    hash: &Vec<u8>,
    held: &Tree,
) -> (r: Result<Kept, String>)
    ensures
        match r {
            Ok(kept) => weighed(descriptor@, named(rest@), bytes@, hash@, held@) == Ok::<
                Stage,
                Seq<char>,
            >(kept@),
            Err(why) => weighed(descriptor@, named(rest@), bytes@, hash@, held@) == Err::<
                Stage,
                Seq<char>,
            >(why@),
        },
{
    let media_type = match held.text_at("mediaType") {
        Some(said) => said,
        None => match descriptor.media_type {
            Some(said) => said,
            None => String::new(),
        },
    };
    if contains(media_type.as_str(), "index") || contains(media_type.as_str(), "manifest.list") {
        let mut inner = manifests_in(held);
        let mut rest = rest;
        let ghost first = named(inner@);
        let ghost then = named(rest@);
        inner.append(&mut rest);
        assert(named(inner@) =~= first + then);
        return Ok(Kept::Looking(inner));
    }
    let mut computed = "sha256:".to_owned();
    computed.append(hex_of(hash.as_slice()).as_str());
    if !same(computed.as_str(), descriptor.digest.as_str()) {
        let mut why = "the manifest's bytes are not ".to_owned();
        why.append(descriptor.digest.as_str());
        return Err(why);
    }
    let there: Vec<(String, String)> = Vec::new();
    assert(pairs(there@) =~= Seq::<(Seq<char>, Seq<char>)>::empty());
    Ok(
        Kept::Gathering {
            manifest: bytes,
            media_type,
            digest: descriptor.digest,
            named: blobs_in(held),
            there,
        },
    )
}

impl Search {
    /// The layout that is searched.
    pub closed spec fn layout(&self) -> Seq<char> {
        self.layout@
    }

    /// How far the search has come.
    pub closed spec fn stage(&self) -> Stage {
        self.kept@
    }

    /// A search for the image in a layout.
    pub fn begin(layout: &str) -> (search: Search)
        ensures
            search.layout() == layout@,
            search.stage() == Stage::Opening,
    {
        Search { layout: layout.to_owned(), kept: Kept::Opening }
    }

    /// What the search needs next.
    pub fn ask(&self) -> (ask: Ask)
        ensures
            ask@ == need(self.layout(), self.stage()),
    {
        match &self.kept {
            Kept::Opening => Ask::Index(joined_path(self.layout.as_str(), "index.json")),
            Kept::Looking(waiting) => {
                if waiting.len() == 0 {
                    return Ask::Refused(
                        "the saved image holds no manifest this can push".to_owned(),
                    );
                }
                assert(named(waiting@)[0] == waiting@[0]@);
                match blob_path(self.layout.as_str(), waiting[0].digest.as_str()) {
                    Ok(path) => Ask::File(path),
                    Err(why) => Ask::Refused(why),
                }
            },
            Kept::Gathering { manifest, media_type, digest, named, there } => {
                if there.len() >= named.len() {
                    return Ask::Nothing(
                        Image {
                            manifest: same_bytes(manifest),
                            media_type: media_type.clone(),
                            digest: digest.clone(),
                            blobs: same_pairs(there),
                        },
                    );
                }
                assert(optionals(named@)[there@.len() as int] == optional(
                    named@[there@.len() as int],
                ));
                match &named[there.len()] {
                    Some(blob) => match blob_path(self.layout.as_str(), blob.as_str()) {
                        Ok(path) => Ask::Presence(path),
                        Err(why) => Ask::Refused(why),
                    },
                    None => Ask::Refused("a manifest names a blob with no digest".to_owned()),
                }
            },
        }
    }

    /// The search after the layout's index was seen to hold this. If the search
    /// did not ask for it, nothing changes.
    pub fn opened(self, held: &Tree) -> (next: Search)
        ensures
            next.stage() == after_opening(self.stage(), held@),
            next.layout() == self.layout(),
    {
        match self.kept {
            Kept::Opening => Search {
                layout: self.layout,
                kept: Kept::Looking(manifests_in(held)),
            },
            kept => Search { layout: self.layout, kept },
        }
    }

    /// The search after the file it asked for was seen to be these bytes, which
    /// hash to this and hold this. If it asked for none, nothing changes.
    pub fn looked(self, bytes: Vec<u8>, hash: &Vec<u8>, held: &Tree) -> (r: Result<Search, String>)
        ensures
            progress(r) == after_looking(self.stage(), bytes@, hash@, held@),
            r matches Ok(next) ==> next.layout() == self.layout(),
    {
        let layout = self.layout;
        match self.kept {
            Kept::Looking(waiting) => {
                let mut waiting = waiting;
                if waiting.len() == 0 {
                    return Ok(Search { layout, kept: Kept::Looking(waiting) });
                }
                let ghost all = named(waiting@);
                let first = waiting.remove(0);
                assert(named(waiting@) =~= all.skip(1));
                assert(all[0] == first@);
                match weigh(first, waiting, bytes, hash, held) {
                    Ok(kept) => Ok(Search { layout, kept }),
                    Err(why) => Err(why),
                }
            },
            kept => Ok(Search { layout, kept }),
        }
    }

    /// The search after the layout's index was read, or could not be. If the
    /// search did not ask for it, nothing changes.
    pub fn index(self, read: Result<Vec<u8>, String>) -> (r: Result<Search, String>)
        ensures
            progress(r) == after_index(self.layout(), self.stage(), bytes_read(read)),
            r matches Ok(next) ==> next.layout() == self.layout(),
    {
        let path = match self.ask() {
            Ask::Index(path) => path,
            _ => {
                return Ok(self);
            },
        };
        match read {
            Ok(bytes) => match read_json(path.as_str(), bytes.as_slice()) {
                Ok(held) => Ok(self.opened(&held)),
                Err(why) => Err(why),
            },
            Err(failed) => {
                let mut why = path;
                why.append(" could not be read: ");
                why.append(failed.as_str());
                Err(why)
            },
        }
    }

    /// The search after the file it asked for was looked for. If it asked for
    /// none, nothing changes.
    pub fn file(self, found: Found) -> (r: Result<Search, String>)
        ensures
            progress(r) == after_file(self.layout(), self.stage(), found@),
            r matches Ok(next) ==> next.layout() == self.layout(),
    {
        let path = match self.ask() {
            Ask::File(path) => path,
            _ => {
                return Ok(self);
            },
        };
        match found {
            Found::Failed(failed) => {
                let mut why = path;
                why.append(" could not be read: ");
                why.append(failed.as_str());
                Err(why)
            },
            Found::Bytes(bytes) => match read_json(path.as_str(), bytes.as_slice()) {
                Ok(held) => {
                    let hash = sha256_of(bytes.as_slice());
                    self.looked(bytes, &hash, &held)
                },
                Err(why) => Err(why),
            },
            Found::Absent => match self.kept {
                Kept::Looking(waiting) => {
                    let mut waiting = waiting;
                    let ghost all = named(waiting@);
                    let _ = waiting.remove(0);
                    assert(named(waiting@) =~= all.skip(1));
                    Ok(Search { layout: self.layout, kept: Kept::Looking(waiting) })
                },
                kept => Ok(Search { layout: self.layout, kept }),
            },
        }
    }

    /// The search after it was seen whether the blob it asked about is there.
    /// If it asked about none, nothing changes.
    pub fn presence(self, present: bool) -> (r: Result<Search, String>)
        ensures
            progress(r) == after_presence(self.layout(), self.stage(), present),
            r matches Ok(next) ==> next.layout() == self.layout(),
    {
        let path = match self.ask() {
            Ask::Presence(path) => path,
            _ => {
                return Ok(self);
            },
        };
        let layout = self.layout;
        match self.kept {
            Kept::Gathering { manifest, media_type, digest, named, there } => {
                let mut there = there;
                let ghost before = pairs(there@);
                assert(optionals(named@)[there@.len() as int] == optional(
                    named@[there@.len() as int],
                ));
                match &named[there.len()] {
                    Some(blob) => {
                        if !present {
                            let mut why = "the layout does not hold ".to_owned();
                            why.append(blob.as_str());
                            return Err(why);
                        }
                        let ghost entry = (blob@, path@);
                        there.push((blob.clone(), path));
                        assert(pairs(there@) =~= before.push(entry));
                    },
                    None => {},
                }
                Ok(
                    Search {
                        layout,
                        kept: Kept::Gathering { manifest, media_type, digest, named, there },
                    },
                )
            },
            kept => Ok(Search { layout, kept }),
        }
    }
}

fn same_bytes(bytes: &Vec<u8>) -> (out: Vec<u8>)
    ensures
        out@ == bytes@,
{
    let mut out: Vec<u8> = Vec::new();
    let mut i: usize = 0;
    while i < bytes.len()
        invariant
            i <= bytes@.len(),
            out@ =~= bytes@.take(i as int),
        decreases bytes@.len() - i,
    {
        out.push(bytes[i]);
        i += 1;
    }
    out
}

fn same_pairs(list: &Vec<(String, String)>) -> (out: Vec<(String, String)>)
    ensures
        pairs(out@) == pairs(list@),
{
    let mut out: Vec<(String, String)> = Vec::new();
    let mut i: usize = 0;
    while i < list.len()
        invariant
            i <= list@.len(),
            pairs(out@) =~= pairs(list@).take(i as int),
        decreases list@.len() - i,
    {
        let ghost before = pairs(out@);
        out.push((list[i].0.clone(), list[i].1.clone()));
        assert(pairs(out@) =~= before.push(pairs(list@)[i as int]));
        i += 1;
    }
    out
}

} // verus!
