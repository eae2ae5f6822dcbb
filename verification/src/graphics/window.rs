use vstd::prelude::*;

verus! {

/// How to create a window.
pub struct WindowConfig {
    pub title: &'static str,
    pub width: u32,
    pub height: u32,
}

impl Default for WindowConfig {
    fn default() -> (r: WindowConfig)
        ensures
            r.title@ == "Crile"@,
            r.width == 1280,
            r.height == 720,
    {
        WindowConfig { title: "Crile", width: 1280, height: 720 }
    }
}

/// A window's width and height as reported, each raised to at least 1 so that sizes
/// can be divided by.
pub fn nonzero_size(width: u32, height: u32) -> (r: (u32, u32))
    ensures
        r.0 == if width == 0 { 1 } else { width },
        r.1 == if height == 0 { 1 } else { height },
{
    (if width == 0 { 1 } else { width }, if height == 0 { 1 } else { height })
}

} // verus!
