use vstd::prelude::*;

verus! {

/// The characters of an optional text.
pub open spec fn text_of(text: Option<String>) -> Option<Seq<char>> {
    match text {
        Some(t) => Some(t@),
        None => None,
    }
}

/// The bytes of an optional byte string.
pub open spec fn bytes_of(bytes: Option<Vec<u8>>) -> Option<Seq<u8>> {
    match bytes {
        Some(b) => Some(b@),
        None => None,
    }
}

/// Copies an optional text.
pub fn copy_text(text: &Option<String>) -> (copy: Option<String>)
    ensures
        text_of(copy) == text_of(*text),
{
    match text {
        Some(t) => Some(t.clone()),
        None => None,
    }
}

/// Copies a byte string.
pub fn copy_bytes(bytes: &Vec<u8>) -> (copy: Vec<u8>)
    ensures
        copy@ == bytes@,
{
    let mut copy: Vec<u8> = Vec::new();
    let mut i: usize = 0;
    while i < bytes.len()
        invariant
            i <= bytes.len(),
            copy@ == bytes@.subrange(0, i as int),
        decreases bytes.len() - i,
    {
        copy.push(bytes[i]);
        i = i + 1;
        assert(copy@ =~= bytes@.subrange(0, i as int));
    }
    assert(bytes@.subrange(0, bytes.len() as int) =~= bytes@);
    copy
}

fn copy_hash(bytes: &Option<Vec<u8>>) -> (copy: Option<Vec<u8>>)
    ensures
        bytes_of(copy) == bytes_of(*bytes),
{
    match bytes {
        Some(b) => Some(copy_bytes(b)),
        None => None,
    }
}

/// The descriptive record that travels with a token.  The registry carries it
/// as given, except for the instant of issue and the group tag, which it
/// writes itself when the token is minted.
#[derive(Clone, Debug, PartialEq, Eq)]
pub struct Metadata {
    pub title: Option<String>,
    pub description: Option<String>,
    pub media: Option<String>,
    pub media_hash: Option<Vec<u8>>,
    pub copies: Option<u64>,
    /// The instant of issue, in nanoseconds of the host's clock.
    pub issued_at: Option<u64>,
    pub expires_at: Option<String>,
    pub starts_at: Option<String>,
    pub updated_at: Option<String>,
    /// Free-form text; for a minted token, the group tag.
    pub extra: Option<String>,
    pub reference: Option<String>,
    pub reference_hash: Option<Vec<u8>>,
}

/// What a `Metadata` holds.
pub struct MetadataView {
    pub title: Option<Seq<char>>,
    pub description: Option<Seq<char>>,
    pub media: Option<Seq<char>>,
    pub media_hash: Option<Seq<u8>>,
    pub copies: Option<u64>,
    pub issued_at: Option<u64>,
    pub expires_at: Option<Seq<char>>,
    pub starts_at: Option<Seq<char>>,
    pub updated_at: Option<Seq<char>>,
    pub extra: Option<Seq<char>>,
    pub reference: Option<Seq<char>>,
    pub reference_hash: Option<Seq<u8>>,
}

impl View for Metadata {
    type V = MetadataView;

    open spec fn view(&self) -> MetadataView {
        MetadataView {
            title: text_of(self.title),
            description: text_of(self.description),
            media: text_of(self.media),
            media_hash: bytes_of(self.media_hash),
            copies: self.copies,
            issued_at: self.issued_at,
            expires_at: text_of(self.expires_at),
            starts_at: text_of(self.starts_at),
            updated_at: text_of(self.updated_at),
            extra: text_of(self.extra),
            reference: text_of(self.reference),
            reference_hash: bytes_of(self.reference_hash),
        }
    }
}

impl MetadataView {
    /// This record as the registry stores it for a token issued at `now` into
    /// the group whose tag is `tag`.
    pub open spec fn stamped(self, now: u64, tag: Seq<char>) -> MetadataView {
        MetadataView { issued_at: Some(now), extra: Some(tag), ..self }
    }
}

impl Metadata {
    /// A record with no field set.
    pub fn empty() -> (metadata: Metadata)
        ensures
            metadata@ == (MetadataView {
                title: None,
                description: None,
                media: None,
                media_hash: None,
                copies: None,
                issued_at: None,
                expires_at: None,
                starts_at: None,
                updated_at: None,
                extra: None,
                reference: None,
                reference_hash: None,
            }),
    {
        Metadata {
            title: None,
            description: None,
            media: None,
            media_hash: None,
            copies: None,
            issued_at: None,
            expires_at: None,
            starts_at: None,
            updated_at: None,
            extra: None,
            reference: None,
            reference_hash: None,
        }
    }

    /// A copy that holds what this record holds.
    pub fn duplicate(&self) -> (copy: Metadata)
        ensures
            copy@ == self@,
    {
        Metadata {
            title: copy_text(&self.title),
            description: copy_text(&self.description),
            media: copy_text(&self.media),
            media_hash: copy_hash(&self.media_hash),
            copies: self.copies,
            issued_at: self.issued_at,
            expires_at: copy_text(&self.expires_at),
            starts_at: copy_text(&self.starts_at),
            updated_at: copy_text(&self.updated_at),
            extra: copy_text(&self.extra),
            reference: copy_text(&self.reference),
            reference_hash: copy_hash(&self.reference_hash),
        }
    }

    /// Stamps the record for a token issued at `now` with the group tag `tag`.
    pub fn stamp(self, now: u64, tag: String) -> (stamped: Metadata)
        ensures
            stamped@ == self@.stamped(now, tag@),
    {
        let mut stamped = self;
        stamped.issued_at = Some(now);
        stamped.extra = Some(tag);
        stamped
    }
}

/// The version of the metadata layout that the registry presents.
pub open spec fn metadata_spec_text() -> Seq<char> {
    "nft-1.0.0"@
}

/// The record that describes the registry as a whole.
#[derive(Clone, Debug, PartialEq, Eq)]
pub struct ContractMetadata {
    pub spec: String,
    pub name: String,
    pub symbol: String,
    pub icon: Option<String>,
    pub base_uri: Option<String>,
    pub reference: Option<String>,
    pub reference_hash: Option<Vec<u8>>,
}

/// What a `ContractMetadata` holds.
pub struct ContractMetadataView {
    pub spec: Seq<char>,
    pub name: Seq<char>,
    pub symbol: Seq<char>,
    pub icon: Option<Seq<char>>,
    pub base_uri: Option<Seq<char>>,
    pub reference: Option<Seq<char>>,
    pub reference_hash: Option<Seq<u8>>,
}

impl View for ContractMetadata {
    type V = ContractMetadataView;

    open spec fn view(&self) -> ContractMetadataView {
        ContractMetadataView {
            spec: self.spec@,
            name: self.name@,
            symbol: self.symbol@,
            icon: text_of(self.icon),
            base_uri: text_of(self.base_uri),
            reference: text_of(self.reference),
            reference_hash: bytes_of(self.reference_hash),
        }
    }
}

impl ContractMetadataView {
    /// A record is valid when it names the presented layout version and its
    /// reference comes with a hash of 32 bytes, or with neither.
    pub open spec fn valid(self) -> bool {
        &&& self.spec == metadata_spec_text()
        &&& (self.reference is Some <==> self.reference_hash is Some)
        &&& (self.reference_hash matches Some(hash) ==> hash.len() == 32)
    }

    /// The record of a registry that was set up without one of its own.
    pub open spec fn standard() -> ContractMetadataView {
        ContractMetadataView {
            spec: metadata_spec_text(),
            name: "1000fans"@,
            symbol: "1000F"@,
            icon: None,
            base_uri: None,
            reference: None,
            reference_hash: None,
        }
    }
}

impl ContractMetadata {
    /// The record of a registry that was set up without one of its own.
    pub fn standard() -> (metadata: ContractMetadata)
        ensures
            metadata@ == ContractMetadataView::standard(),
            metadata@.valid(),
    {
        ContractMetadata {
            spec: String::from_str("nft-1.0.0"),
            name: String::from_str("1000fans"),
            symbol: String::from_str("1000F"),
            icon: None,
            base_uri: None,
            reference: None,
            reference_hash: None,
        }
    }

    /// Tells whether the record is valid.
    pub fn is_valid(&self) -> (valid: bool)
        ensures
            valid == self@.valid(),
    {
        let layout = String::from_str("nft-1.0.0");
        if self.spec != layout {
            return false;
        }
        if self.reference.is_some() != self.reference_hash.is_some() {
            return false;
        }
        match &self.reference_hash {
            Some(hash) => hash.len() == 32,
            None => true,
        }
    }

    /// A copy that holds what this record holds.
    pub fn duplicate(&self) -> (copy: ContractMetadata)
        ensures
            copy@ == self@,
    {
        ContractMetadata {
            spec: self.spec.clone(),
            name: self.name.clone(),
            symbol: self.symbol.clone(),
            icon: copy_text(&self.icon),
            base_uri: copy_text(&self.base_uri),
            reference: copy_text(&self.reference),
            reference_hash: copy_hash(&self.reference_hash),
        }
    }
}

} // verus!
