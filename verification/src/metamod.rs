//! The Metamod plugin interface's load-time and unload-reason codes.

use vstd::prelude::*;

verus! {

/// When Metamod may load or unload a plugin.
#[allow(non_camel_case_types)]
#[derive(Debug, Clone, Copy, PartialEq, Eq, Structural)]
pub enum PLUG_LOADTIME {
    PT_NEVER,
    PT_STARTUP,
    PT_CHANGELEVEL,
    PT_ANYTIME,
    PT_ANYPAUSE,
}

/// Why Metamod unloads a plugin.
#[allow(non_camel_case_types)]
#[derive(Debug, Clone, Copy, PartialEq, Eq, Structural)]
pub enum PL_UNLOAD_REASON {
    PNL_NULL,
    PNL_INI_DELETED,
    PNL_FILE_NEWER,
    PNL_COMMAND,
    PNL_CMD_FORCED,
    PNL_DELAYED,
    PNL_PLUGIN,
    PNL_PLG_FORCED,
    PNL_RELOAD,
}

/// The interface code of a load time.
pub open spec fn loadtime_code(t: PLUG_LOADTIME) -> i32 {
    match t {
        PLUG_LOADTIME::PT_NEVER => 0,
        PLUG_LOADTIME::PT_STARTUP => 1,
        PLUG_LOADTIME::PT_CHANGELEVEL => 2,
        PLUG_LOADTIME::PT_ANYTIME => 3,
        PLUG_LOADTIME::PT_ANYPAUSE => 4,
    }
}

/// The interface code of an unload reason.
pub open spec fn unload_reason_code(r: PL_UNLOAD_REASON) -> i32 {
    match r {
        PL_UNLOAD_REASON::PNL_NULL => 0,
        PL_UNLOAD_REASON::PNL_INI_DELETED => 1,
        PL_UNLOAD_REASON::PNL_FILE_NEWER => 2,
        PL_UNLOAD_REASON::PNL_COMMAND => 3,
        PL_UNLOAD_REASON::PNL_CMD_FORCED => 4,
        PL_UNLOAD_REASON::PNL_DELAYED => 5,
        PL_UNLOAD_REASON::PNL_PLUGIN => 6,
        PL_UNLOAD_REASON::PNL_PLG_FORCED => 7,
        PL_UNLOAD_REASON::PNL_RELOAD => 8,
    }
}

impl PLUG_LOADTIME {
    /// The interface code.
    pub fn code(&self) -> (c: i32)
        ensures
            c == loadtime_code(*self),
    {
        match self {
            PLUG_LOADTIME::PT_NEVER => 0,
            PLUG_LOADTIME::PT_STARTUP => 1,
            PLUG_LOADTIME::PT_CHANGELEVEL => 2,
            PLUG_LOADTIME::PT_ANYTIME => 3,
            PLUG_LOADTIME::PT_ANYPAUSE => 4,
        }
    }

    /// The load time with interface code `c`, if there is one.
    pub fn from_code(c: i32) -> (r: Option<Self>)
        ensures
            match r {
                Some(t) => loadtime_code(t) == c,
                None => forall|t: PLUG_LOADTIME| loadtime_code(t) != c,
            },
    {
        if c == 0 {
            Some(PLUG_LOADTIME::PT_NEVER)
        } else if c == 1 {
            Some(PLUG_LOADTIME::PT_STARTUP)
        } else if c == 2 {
            Some(PLUG_LOADTIME::PT_CHANGELEVEL)
        } else if c == 3 {
            Some(PLUG_LOADTIME::PT_ANYTIME)
        } else if c == 4 {
            Some(PLUG_LOADTIME::PT_ANYPAUSE)
        } else {
            None
        }
    }
}

impl PL_UNLOAD_REASON {
    /// The interface code.
    pub fn code(&self) -> (c: i32)
        ensures
            c == unload_reason_code(*self),
    {
        match self {
            PL_UNLOAD_REASON::PNL_NULL => 0,
            PL_UNLOAD_REASON::PNL_INI_DELETED => 1,
            PL_UNLOAD_REASON::PNL_FILE_NEWER => 2,
            PL_UNLOAD_REASON::PNL_COMMAND => 3,
            PL_UNLOAD_REASON::PNL_CMD_FORCED => 4,
            PL_UNLOAD_REASON::PNL_DELAYED => 5,
            PL_UNLOAD_REASON::PNL_PLUGIN => 6,
            PL_UNLOAD_REASON::PNL_PLG_FORCED => 7,
            PL_UNLOAD_REASON::PNL_RELOAD => 8,
        }
    }

    /// The unload reason with interface code `c`, if there is one.
    pub fn from_code(c: i32) -> (r: Option<Self>)
        ensures
            match r {
                Some(t) => unload_reason_code(t) == c,
                None => forall|t: PL_UNLOAD_REASON| unload_reason_code(t) != c,
            },
    {
        if c == 0 {
            Some(PL_UNLOAD_REASON::PNL_NULL)
        } else if c == 1 {
            Some(PL_UNLOAD_REASON::PNL_INI_DELETED)
        } else if c == 2 {
            Some(PL_UNLOAD_REASON::PNL_FILE_NEWER)
        } else if c == 3 {
            Some(PL_UNLOAD_REASON::PNL_COMMAND)
        } else if c == 4 {
            Some(PL_UNLOAD_REASON::PNL_CMD_FORCED)
        } else if c == 5 {
            Some(PL_UNLOAD_REASON::PNL_DELAYED)
        } else if c == 6 {
            Some(PL_UNLOAD_REASON::PNL_PLUGIN)
        } else if c == 7 {
            Some(PL_UNLOAD_REASON::PNL_PLG_FORCED)
        } else if c == 8 {
            Some(PL_UNLOAD_REASON::PNL_RELOAD)
        } else {
            None
        }
    }
}

} // verus!
