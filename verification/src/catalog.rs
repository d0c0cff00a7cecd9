//! The catalog: what tracks a publisher offers, and how they are packaged.
use vstd::prelude::*;

verus! {

#[derive(Debug, Clone, Copy, PartialEq, Eq, Structural)]
pub enum PackagingType {
    ChunkPerObject,
    Timeline,
}

impl PackagingType {
    pub open spec fn text(self) -> Seq<char> {
        match self {
            PackagingType::ChunkPerObject => "chunk-per-object"@,
            PackagingType::Timeline => "timeline"@,
        }
    }

    /// The name of the packaging in a catalog.
    pub fn name(&self) -> (r: &'static str)
        ensures
            r@ == self.text(),
    {
        match self {
            PackagingType::ChunkPerObject => "chunk-per-object",
            PackagingType::Timeline => "timeline",
        }
    }
}

#[derive(Debug)]
pub struct Catalog {
    pub version: u32,
    /// Milliseconds since January 1, 1970 (midnight UTC/GMT).
    pub generated_at: u64,
    pub tracks: Vec<CatalogTrack>,
}

impl Catalog {
    /// A catalog of version 1, generated at a time.
    pub fn new(tracks: Vec<CatalogTrack>, generated_at: u64) -> (c: Self)
        ensures
            c == (Catalog { version: 1, generated_at, tracks }),
    {
        Catalog { version: 1, generated_at, tracks }
    }
}

#[derive(Debug)]
pub struct CatalogTrack {
    pub track_name: String,
    pub render_group: u32,
    pub packaging: PackagingType,
    pub is_live: bool,
    pub role: String,
    pub codec: String,
    pub width: u32,
    pub height: u32,
    pub bitrate: u32,
    pub framerate: u32,
    pub alt_group: u32,
    /// The initialization segment in base64.
    pub init_data: Option<String>,
    pub mime_type: Option<String>,
    /// The tracks that this one goes with.
    pub depends: Option<Vec<String>>,
}

impl CatalogTrack {
    pub fn new(
        track_name: String,
        render_group: u32,
        packaging: PackagingType,
        is_live: bool,
        role: String,
        codec: String,
        width: u32,
        height: u32,
        bitrate: u32,
        framerate: u32,
        alt_group: u32,
        init_data: Option<String>,
        mime_type: Option<String>,
        depends: Option<Vec<String>>,
    ) -> (t: Self)
        ensures
            t == (CatalogTrack {
                track_name,
                render_group,
                packaging,
                is_live,
                role,
                codec,
                width,
                height,
                bitrate,
                framerate,
                alt_group,
                init_data,
                mime_type,
                depends,
            }),
    {
        CatalogTrack {
            track_name,
            render_group,
            packaging,
            is_live,
            role,
            codec,
            width,
            height,
            bitrate,
            framerate,
            alt_group,
            init_data,
            mime_type,
            depends,
        }
    }
}

/// What an entry of the catalog says.
#[verifier::ext_equal]
pub struct CatalogTrackView {
    pub track_name: Seq<char>,
    pub render_group: u32,
    pub packaging: PackagingType,
    pub is_live: bool,
    pub role: Seq<char>,
    pub codec: Seq<char>,
    pub width: u32,
    pub height: u32,
    pub bitrate: u32,
    pub framerate: u32,
    pub alt_group: u32,
    pub init_data: Option<Seq<char>>,
    pub mime_type: Option<Seq<char>>,
    pub depends: Option<Seq<Seq<char>>>,
}

impl View for CatalogTrack {
    type V = CatalogTrackView;

    open spec fn view(&self) -> CatalogTrackView {
        CatalogTrackView {
            track_name: self.track_name@,
            render_group: self.render_group,
            packaging: self.packaging,
            is_live: self.is_live,
            role: self.role@,
            codec: self.codec@,
            width: self.width,
            height: self.height,
            bitrate: self.bitrate,
            framerate: self.framerate,
            alt_group: self.alt_group,
            init_data: match self.init_data {
                Some(s) => Some(s@),
                None => None,
            },
            mime_type: match self.mime_type {
                Some(s) => Some(s@),
                None => None,
            },
            depends: match self.depends {
                Some(v) => Some(crate::text::texts(v@)),
                None => None,
            },
        }
    }
}

/// What a catalog says.
#[verifier::ext_equal]
pub struct CatalogView {
    pub version: u32,
    pub generated_at: u64,
    pub tracks: Seq<CatalogTrackView>,
}

impl View for Catalog {
    type V = CatalogView;

    open spec fn view(&self) -> CatalogView {
        CatalogView {
            version: self.version,
            generated_at: self.generated_at,
            tracks: self.tracks@.map_values(|t: CatalogTrack| t@),
        }
    }
}

} // verus!
