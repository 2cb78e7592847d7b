use vstd::prelude::*;
use vstd::utf8::encode_utf8;

verus! {

/// Compression values used for writing chunks.
#[derive(Debug, PartialEq, Eq, PartialOrd, Ord, Hash)]
pub enum Compression {
    Gzip,
    ZLib,
    Uncompressed,
    Lz4,
    /// A compression byte together with a namespaced string naming the
    /// algorithm used.
    Custom((u8, String)),
}

/// The mathematical value of a [`Compression`]: a custom compression
/// carries its byte and the characters of its id.
pub enum CompressionModel {
    Gzip,
    ZLib,
    Uncompressed,
    Lz4,
    Custom(u8, Seq<char>),
}

impl CompressionModel {
    /// The compression byte as it appears in a chunk payload.
    pub open spec fn tag(self) -> u8 {
        match self {
            CompressionModel::Gzip => 1,
            CompressionModel::ZLib => 2,
            CompressionModel::Uncompressed => 3,
            CompressionModel::Lz4 => 4,
            CompressionModel::Custom(v, _) => v,
        }
    }

    /// The compression a compression byte stands for; any byte other than
    /// the four vanilla ones is a custom compression with an empty id.
    pub open spec fn from_tag(v: u8) -> CompressionModel {
        if v == 1 {
            CompressionModel::Gzip
        } else if v == 2 {
            CompressionModel::ZLib
        } else if v == 3 {
            CompressionModel::Uncompressed
        } else if v == 4 {
            CompressionModel::Lz4
        } else {
            CompressionModel::Custom(v, Seq::empty())
        }
    }

    pub open spec fn is_custom(self) -> bool {
        self is Custom
    }

    /// The UTF-8 bytes of a custom compression's id (empty for the others).
    pub open spec fn id_bytes(self) -> Seq<u8> {
        match self {
            CompressionModel::Custom(_, id) => encode_utf8(id),
            _ => Seq::empty(),
        }
    }

    /// How many bytes the compression takes in a chunk payload: the
    /// compression byte, and for a custom one a two byte length and its id.
    pub open spec fn header_len(self) -> int {
        if self.is_custom() {
            3 + self.id_bytes().len() as int
        } else {
            1
        }
    }
}

impl View for Compression {
    type V = CompressionModel;

    open spec fn view(&self) -> CompressionModel {
        match self {
            Compression::Gzip => CompressionModel::Gzip,
            Compression::ZLib => CompressionModel::ZLib,
            Compression::Uncompressed => CompressionModel::Uncompressed,
            Compression::Lz4 => CompressionModel::Lz4,
            Compression::Custom((v, id)) => CompressionModel::Custom(*v, id@),
        }
    }
}

impl Compression {
    /// The custom compression value
    pub const CUSTOM_COMPRESSION_VALUE: u8 = 127;

    /// Converts the [`Compression`] to its `u8` variant.
    ///
    /// Custom compressions return their specified value and discard their id.
    pub fn to_u8(&self) -> (r: u8)
        ensures
            r == self@.tag(),
    {
        match self {
            Compression::Gzip => 1,
            Compression::ZLib => 2,
            Compression::Uncompressed => 3,
            Compression::Lz4 => 4,
            Compression::Custom((val, _)) => *val,
        }
    }

    /// Converts a `u8` into its [`Compression`] variant.
    ///
    /// Anything other than the vanilla compression bytes becomes a
    /// [`Compression::Custom`] variant with an empty id.
    pub fn from_u8(val: u8) -> (r: Self)
        ensures
            r@ == CompressionModel::from_tag(val),
    {
        match val {
            1 => Compression::Gzip,
            2 => Compression::ZLib,
            3 => Compression::Uncompressed,
            4 => Compression::Lz4,
            _ => Compression::Custom((val, String::new())),
        }
    }

    /// A custom compression named by a namespaced string, with the custom
    /// compression value.
    pub fn new_custom(id: &str) -> (r: Self)
        ensures
            r@ == CompressionModel::Custom(Self::CUSTOM_COMPRESSION_VALUE, id@),
    {
        Compression::Custom((Self::CUSTOM_COMPRESSION_VALUE, id.to_owned()))
    }

    /// Returns the size of the compression as it appears in the region file
    /// format, accounting for a custom compression's prefixed id.
    pub fn size(&self) -> (r: usize)
        requires
            self@.header_len() <= usize::MAX,
        ensures
            r == self@.header_len(),
    {
        match self {
            Compression::Custom((_, id)) => 1 + (2 + id.as_str().len()),
            _ => 1,
        }
    }

}

impl Clone for Compression {
    /// A copy of the compression with the same value.
    fn clone(&self) -> (r: Self)
        ensures
            r@ == self@,
    {
        match self {
            Compression::Gzip => Compression::Gzip,
            Compression::ZLib => Compression::ZLib,
            Compression::Uncompressed => Compression::Uncompressed,
            Compression::Lz4 => Compression::Lz4,
            Compression::Custom((v, id)) => Compression::Custom((*v, id.clone())),
        }
    }
}

impl Default for Compression {
    /// ZLib, the default of singleplayer worlds.
    fn default() -> (r: Self)
        ensures
            r@ == CompressionModel::ZLib,
    {
        Compression::ZLib
    }
}

} // verus!
