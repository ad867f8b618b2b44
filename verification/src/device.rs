use vstd::prelude::*;

verus! {

/// USB vendor identifier of the devices this tool talks to.
pub const AMAZON_VENDOR_ID: u16 = 0x1949;

/// Identity metadata reported by a connected device.
#[derive(Debug, Clone)]
pub struct KindleInfo {
    pub manufacturer: String,
    pub model: String,
    pub serial: String,
    pub friendly_name: String,
}

/// Capacity metadata of the device's single storage volume.
#[derive(Debug, Clone)]
pub struct StorageInfo {
    pub description: String,
    pub total_bytes: u64,
    pub free_bytes: u64,
}

/// One named object directly under some parent: a file or a folder,
/// with its size and its opaque identifier in the device's object graph.
#[derive(Debug, Clone)]
pub struct FileEntry {
    pub name: String,
    pub size: u64,
    pub is_folder: bool,
    pub id: u32,
}

/// Addressing mode for children-of queries: the storage root has no
/// identifier of its own, every other parent is a folder's identifier.
#[derive(Debug, Clone, Copy, PartialEq, Eq, Structural)]
pub enum ParentRef {
    Root,
    Folder(u32),
}

/// True exactly for the vendor id this tool accepts during detection.
pub fn is_kindle_vendor(vendor_id: u16) -> (r: bool)
    ensures
        r == (vendor_id == AMAZON_VENDOR_ID),
{
    vendor_id == AMAZON_VENDOR_ID
}

/// Builds device identity metadata from the raw fields the transport hands
/// back, substituting the documented fallbacks where a field is missing.
pub fn kindle_info_from(
    manufacturer: Option<String>,
    model: Option<String>,
    serial: Option<String>,
    friendly_name: Option<String>,
) -> (r: KindleInfo)
    ensures
        r.manufacturer@ == (match manufacturer {
            Some(m) => m@,
            None => "Unknown"@,
        }),
        r.model@ == (match model {
            Some(m) => m@,
            None => "Unknown"@,
        }),
        r.serial@ == (match serial {
            Some(s) => s@,
            None => ""@,
        }),
        r.friendly_name@ == (match friendly_name {
            Some(f) => f@,
            None => "Kindle"@,
        }),
{
    KindleInfo {
        manufacturer: match manufacturer {
            Some(m) => m,
            None => String::from_str("Unknown"),
        },
        model: match model {
            Some(m) => m,
            None => String::from_str("Unknown"),
        },
        serial: match serial {
            Some(s) => s,
            None => String::from_str(""),
        },
        friendly_name: match friendly_name {
            Some(f) => f,
            None => String::from_str("Kindle"),
        },
    }
}

/// Builds storage metadata from the raw fields the transport hands back,
/// substituting the documented fallback description.
pub fn storage_info_from(
    description: Option<String>,
    total_bytes: u64,
    free_bytes: u64,
) -> (r: StorageInfo)
    ensures
        r.description@ == (match description {
            Some(d) => d@,
            None => "Internal Storage"@,
        }),
        r.total_bytes == total_bytes,
        r.free_bytes == free_bytes,
{
    StorageInfo {
        description: match description {
            Some(d) => d,
            None => String::from_str("Internal Storage"),
        },
        total_bytes,
        free_bytes,
    }
}

} // verus!
