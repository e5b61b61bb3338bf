use vstd::prelude::*;
use crate::text::{owned, push_str, str_eq};

verus! {

/// How thread geometry should be rendered.
#[derive(Debug, Clone, Copy, PartialEq, Eq, Structural, Hash)]
pub enum ThreadMode {
    /// No thread geometry: just a plain hole or cylinder.
    Plain,
    /// Cosmetic annotation only (lightweight).
    Cosmetic,
    /// Full helical thread geometry.
    Full,
}

/// Thread standard families.
#[derive(Debug, Clone, Copy, PartialEq, Eq, Structural, Hash)]
pub enum ThreadStandard {
    /// ISO 261 / ISO 262 metric threads.
    IsoMetric,
    /// ASME B1.1 Unified Thread Standard.
    Uts,
    /// BS 84 British Standard Whitworth (future).
    Bsw,
}

/// The text under which each ThreadStandard value is written.
pub open spec fn thread_standard_name(v: ThreadStandard) -> Seq<char> {
    match v {
        ThreadStandard::IsoMetric => "ISO"@,
        ThreadStandard::Uts => "UTS"@,
        ThreadStandard::Bsw => "BSW"@,
    }
}

impl ThreadStandard {
    /// Every value, in declaration order.
    pub fn all() -> (r: Vec<ThreadStandard>)
        ensures
            r@ == seq![ThreadStandard::IsoMetric, ThreadStandard::Uts, ThreadStandard::Bsw],
    {
        vec![ThreadStandard::IsoMetric, ThreadStandard::Uts, ThreadStandard::Bsw]
    }

    /// The text under which this value is written.
    pub fn name(self) -> (r: &'static str)
        ensures
            r@ == thread_standard_name(self),
    {
        match self {
            ThreadStandard::IsoMetric => "ISO",
            ThreadStandard::Uts => "UTS",
            ThreadStandard::Bsw => "BSW",
        }
    }

    /// The value written as `s`, if any.
    pub fn from_name(s: &str) -> (r: Option<ThreadStandard>)
        ensures
            match r {
                Some(v) => s@ == thread_standard_name(v),
                None => forall|v: ThreadStandard| s@ != #[trigger] thread_standard_name(v),
            },
    {
        if str_eq(s, "ISO") {
            return Some(ThreadStandard::IsoMetric);
        }
        if str_eq(s, "UTS") {
            return Some(ThreadStandard::Uts);
        }
        if str_eq(s, "BSW") {
            return Some(ThreadStandard::Bsw);
        }
        None
    }
}

impl std::str::FromStr for ThreadStandard {
    type Err = String;

    fn from_str(s: &str) -> Result<ThreadStandard, String> {
        match ThreadStandard::from_name(s) {
            Some(v) => Ok(v),
            None => {
                let mut m = owned("unknown ThreadStandard: ");
                push_str(&mut m, s);
                Err(m)
            },
        }
    }
}

/// Individual thread sizes across all standards.
#[derive(Debug, Clone, Copy, PartialEq, Eq, Structural, Hash)]
pub enum ThreadSize {
    M1_6,
    M2,
    M2_5,
    M3,
    M4,
    M5,
    M6,
    M8,
    M10,
    M12,
    M14,
    M16,
    M20,
    M24,
    M30,
    /// #2-56 UNC
    Uts2_56,
    /// #4-40 UNC
    Uts4_40,
    /// #6-32 UNC
    Uts6_32,
    /// #8-32 UNC
    Uts8_32,
    /// #10-24 UNC
    Uts10_24,
    /// #10-32 UNF
    Uts10_32,
    /// 1/4"-20 UNC
    Uts1_4_20,
    /// 5/16"-18 UNC
    Uts5_16_18,
    /// 3/8"-16 UNC
    Uts3_8_16,
    /// 7/16"-14 UNC
    Uts7_16_14,
    /// 1/2"-13 UNC
    Uts1_2_13,
    /// 5/8"-11 UNC
    Uts5_8_11,
    /// 3/4"-10 UNC
    Uts3_4_10,
}

/// The text under which each ThreadSize value is written.
pub open spec fn thread_size_name(v: ThreadSize) -> Seq<char> {
    match v {
        ThreadSize::M1_6 => "M1.6"@,
        ThreadSize::M2 => "M2"@,
        ThreadSize::M2_5 => "M2.5"@,
        ThreadSize::M3 => "M3"@,
        ThreadSize::M4 => "M4"@,
        ThreadSize::M5 => "M5"@,
        ThreadSize::M6 => "M6"@,
        ThreadSize::M8 => "M8"@,
        ThreadSize::M10 => "M10"@,
        ThreadSize::M12 => "M12"@,
        ThreadSize::M14 => "M14"@,
        ThreadSize::M16 => "M16"@,
        ThreadSize::M20 => "M20"@,
        ThreadSize::M24 => "M24"@,
        ThreadSize::M30 => "M30"@,
        ThreadSize::Uts2_56 => "#2-56"@,
        ThreadSize::Uts4_40 => "#4-40"@,
        ThreadSize::Uts6_32 => "#6-32"@,
        ThreadSize::Uts8_32 => "#8-32"@,
        ThreadSize::Uts10_24 => "#10-24"@,
        ThreadSize::Uts10_32 => "#10-32"@,
        ThreadSize::Uts1_4_20 => "1/4\"-20"@,
        ThreadSize::Uts5_16_18 => "5/16\"-18"@,
        ThreadSize::Uts3_8_16 => "3/8\"-16"@,
        ThreadSize::Uts7_16_14 => "7/16\"-14"@,
        ThreadSize::Uts1_2_13 => "1/2\"-13"@,
        ThreadSize::Uts5_8_11 => "5/8\"-11"@,
        ThreadSize::Uts3_4_10 => "3/4\"-10"@,
    }
}

impl ThreadSize {
    /// Every value, in declaration order.
    pub fn all() -> (r: Vec<ThreadSize>)
        ensures
            r@ == seq![ThreadSize::M1_6, ThreadSize::M2, ThreadSize::M2_5, ThreadSize::M3, ThreadSize::M4, ThreadSize::M5, ThreadSize::M6, ThreadSize::M8, ThreadSize::M10, ThreadSize::M12, ThreadSize::M14, ThreadSize::M16, ThreadSize::M20, ThreadSize::M24, ThreadSize::M30, ThreadSize::Uts2_56, ThreadSize::Uts4_40, ThreadSize::Uts6_32, ThreadSize::Uts8_32, ThreadSize::Uts10_24, ThreadSize::Uts10_32, ThreadSize::Uts1_4_20, ThreadSize::Uts5_16_18, ThreadSize::Uts3_8_16, ThreadSize::Uts7_16_14, ThreadSize::Uts1_2_13, ThreadSize::Uts5_8_11, ThreadSize::Uts3_4_10],
    {
        vec![ThreadSize::M1_6, ThreadSize::M2, ThreadSize::M2_5, ThreadSize::M3, ThreadSize::M4, ThreadSize::M5, ThreadSize::M6, ThreadSize::M8, ThreadSize::M10, ThreadSize::M12, ThreadSize::M14, ThreadSize::M16, ThreadSize::M20, ThreadSize::M24, ThreadSize::M30, ThreadSize::Uts2_56, ThreadSize::Uts4_40, ThreadSize::Uts6_32, ThreadSize::Uts8_32, ThreadSize::Uts10_24, ThreadSize::Uts10_32, ThreadSize::Uts1_4_20, ThreadSize::Uts5_16_18, ThreadSize::Uts3_8_16, ThreadSize::Uts7_16_14, ThreadSize::Uts1_2_13, ThreadSize::Uts5_8_11, ThreadSize::Uts3_4_10]
    }

    /// The text under which this value is written.
    pub fn name(self) -> (r: &'static str)
        ensures
            r@ == thread_size_name(self),
    {
        match self {
            ThreadSize::M1_6 => "M1.6",
            ThreadSize::M2 => "M2",
            ThreadSize::M2_5 => "M2.5",
            ThreadSize::M3 => "M3",
            ThreadSize::M4 => "M4",
            ThreadSize::M5 => "M5",
            ThreadSize::M6 => "M6",
            ThreadSize::M8 => "M8",
            ThreadSize::M10 => "M10",
            ThreadSize::M12 => "M12",
            ThreadSize::M14 => "M14",
            ThreadSize::M16 => "M16",
            ThreadSize::M20 => "M20",
            ThreadSize::M24 => "M24",
            ThreadSize::M30 => "M30",
            ThreadSize::Uts2_56 => "#2-56",
            ThreadSize::Uts4_40 => "#4-40",
            ThreadSize::Uts6_32 => "#6-32",
            ThreadSize::Uts8_32 => "#8-32",
            ThreadSize::Uts10_24 => "#10-24",
            ThreadSize::Uts10_32 => "#10-32",
            ThreadSize::Uts1_4_20 => "1/4\"-20",
            ThreadSize::Uts5_16_18 => "5/16\"-18",
            ThreadSize::Uts3_8_16 => "3/8\"-16",
            ThreadSize::Uts7_16_14 => "7/16\"-14",
            ThreadSize::Uts1_2_13 => "1/2\"-13",
            ThreadSize::Uts5_8_11 => "5/8\"-11",
            ThreadSize::Uts3_4_10 => "3/4\"-10",
        }
    }

    /// The value written as `s`, if any.
    pub fn from_name(s: &str) -> (r: Option<ThreadSize>)
        ensures
            match r {
                Some(v) => s@ == thread_size_name(v),
                None => forall|v: ThreadSize| s@ != #[trigger] thread_size_name(v),
            },
    {
        if str_eq(s, "M1.6") {
            return Some(ThreadSize::M1_6);
        }
        if str_eq(s, "M2") {
            return Some(ThreadSize::M2);
        }
        if str_eq(s, "M2.5") {
            return Some(ThreadSize::M2_5);
        }
        if str_eq(s, "M3") {
            return Some(ThreadSize::M3);
        }
        if str_eq(s, "M4") {
            return Some(ThreadSize::M4);
        }
        if str_eq(s, "M5") {
            return Some(ThreadSize::M5);
        }
        if str_eq(s, "M6") {
            return Some(ThreadSize::M6);
        }
        if str_eq(s, "M8") {
            return Some(ThreadSize::M8);
        }
        if str_eq(s, "M10") {
            return Some(ThreadSize::M10);
        }
        if str_eq(s, "M12") {
            return Some(ThreadSize::M12);
        }
        if str_eq(s, "M14") {
            return Some(ThreadSize::M14);
        }
        if str_eq(s, "M16") {
            return Some(ThreadSize::M16);
        }
        if str_eq(s, "M20") {
            return Some(ThreadSize::M20);
        }
        if str_eq(s, "M24") {
            return Some(ThreadSize::M24);
        }
        if str_eq(s, "M30") {
            return Some(ThreadSize::M30);
        }
        if str_eq(s, "#2-56") {
            return Some(ThreadSize::Uts2_56);
        }
        if str_eq(s, "#4-40") {
            return Some(ThreadSize::Uts4_40);
        }
        if str_eq(s, "#6-32") {
            return Some(ThreadSize::Uts6_32);
        }
        if str_eq(s, "#8-32") {
            return Some(ThreadSize::Uts8_32);
        }
        if str_eq(s, "#10-24") {
            return Some(ThreadSize::Uts10_24);
        }
        if str_eq(s, "#10-32") {
            return Some(ThreadSize::Uts10_32);
        }
        if str_eq(s, "1/4\"-20") {
            return Some(ThreadSize::Uts1_4_20);
        }
        if str_eq(s, "5/16\"-18") {
            return Some(ThreadSize::Uts5_16_18);
        }
        if str_eq(s, "3/8\"-16") {
            return Some(ThreadSize::Uts3_8_16);
        }
        if str_eq(s, "7/16\"-14") {
            return Some(ThreadSize::Uts7_16_14);
        }
        if str_eq(s, "1/2\"-13") {
            return Some(ThreadSize::Uts1_2_13);
        }
        if str_eq(s, "5/8\"-11") {
            return Some(ThreadSize::Uts5_8_11);
        }
        if str_eq(s, "3/4\"-10") {
            return Some(ThreadSize::Uts3_4_10);
        }
        None
    }
}

impl std::str::FromStr for ThreadSize {
    type Err = String;

    fn from_str(s: &str) -> Result<ThreadSize, String> {
        match ThreadSize::from_name(s) {
            Some(v) => Ok(v),
            None => {
                let mut m = owned("unknown ThreadSize: ");
                push_str(&mut m, s);
                Err(m)
            },
        }
    }
}

/// Thread type (internal/external).
#[derive(Debug, Clone, Copy, PartialEq, Eq, Structural, Hash)]
pub enum ThreadKind {
    /// Internal thread (tapped hole).
    Internal,
    /// External thread (bolt/screw).
    External,
    /// Clearance hole (no threads, close fit).
    ClearanceClose,
    /// Clearance hole (no threads, medium/normal fit).
    ClearanceMedium,
    /// Clearance hole (no threads, free/loose fit).
    ClearanceFree,
    /// Insert hole (helicoil or similar).
    Insert,
}

/// The text under which each ThreadKind value is written.
pub open spec fn thread_kind_name(v: ThreadKind) -> Seq<char> {
    match v {
        ThreadKind::Internal => "internal"@,
        ThreadKind::External => "external"@,
        ThreadKind::ClearanceClose => "clearance-close"@,
        ThreadKind::ClearanceMedium => "clearance-medium"@,
        ThreadKind::ClearanceFree => "clearance-free"@,
        ThreadKind::Insert => "insert"@,
    }
}

impl ThreadKind {
    /// Every value, in declaration order.
    pub fn all() -> (r: Vec<ThreadKind>)
        ensures
            r@ == seq![ThreadKind::Internal, ThreadKind::External, ThreadKind::ClearanceClose, ThreadKind::ClearanceMedium, ThreadKind::ClearanceFree, ThreadKind::Insert],
    {
        vec![ThreadKind::Internal, ThreadKind::External, ThreadKind::ClearanceClose, ThreadKind::ClearanceMedium, ThreadKind::ClearanceFree, ThreadKind::Insert]
    }

    /// The text under which this value is written.
    pub fn name(self) -> (r: &'static str)
        ensures
            r@ == thread_kind_name(self),
    {
        match self {
            ThreadKind::Internal => "internal",
            ThreadKind::External => "external",
            ThreadKind::ClearanceClose => "clearance-close",
            ThreadKind::ClearanceMedium => "clearance-medium",
            ThreadKind::ClearanceFree => "clearance-free",
            ThreadKind::Insert => "insert",
        }
    }

    /// The value written as `s`, if any.
    pub fn from_name(s: &str) -> (r: Option<ThreadKind>)
        ensures
            match r {
                Some(v) => s@ == thread_kind_name(v),
                None => forall|v: ThreadKind| s@ != #[trigger] thread_kind_name(v),
            },
    {
        if str_eq(s, "internal") {
            return Some(ThreadKind::Internal);
        }
        if str_eq(s, "external") {
            return Some(ThreadKind::External);
        }
        if str_eq(s, "clearance-close") {
            return Some(ThreadKind::ClearanceClose);
        }
        if str_eq(s, "clearance-medium") {
            return Some(ThreadKind::ClearanceMedium);
        }
        if str_eq(s, "clearance-free") {
            return Some(ThreadKind::ClearanceFree);
        }
        if str_eq(s, "insert") {
            return Some(ThreadKind::Insert);
        }
        None
    }
}

impl std::str::FromStr for ThreadKind {
    type Err = String;

    fn from_str(s: &str) -> Result<ThreadKind, String> {
        match ThreadKind::from_name(s) {
            Some(v) => Ok(v),
            None => {
                let mut m = owned("unknown ThreadKind: ");
                push_str(&mut m, s);
                Err(m)
            },
        }
    }
}

/// Clearance hole fit categories (ISO 273).
#[derive(Debug, Clone, Copy, PartialEq, Eq, Structural, Hash)]
pub enum ClearanceFit {
    /// Close fit — minimum clearance.
    Close,
    /// Medium/normal fit.
    Medium,
    /// Free/loose fit — maximum clearance.
    Free,
}

/// The text under which each ClearanceFit value is written.
pub open spec fn clearance_fit_name(v: ClearanceFit) -> Seq<char> {
    match v {
        ClearanceFit::Close => "close"@,
        ClearanceFit::Medium => "medium"@,
        ClearanceFit::Free => "free"@,
    }
}

impl ClearanceFit {
    /// Every value, in declaration order.
    pub fn all() -> (r: Vec<ClearanceFit>)
        ensures
            r@ == seq![ClearanceFit::Close, ClearanceFit::Medium, ClearanceFit::Free],
    {
        vec![ClearanceFit::Close, ClearanceFit::Medium, ClearanceFit::Free]
    }

    /// The text under which this value is written.
    pub fn name(self) -> (r: &'static str)
        ensures
            r@ == clearance_fit_name(self),
    {
        match self {
            ClearanceFit::Close => "close",
            ClearanceFit::Medium => "medium",
            ClearanceFit::Free => "free",
        }
    }

    /// The value written as `s`, if any.
    pub fn from_name(s: &str) -> (r: Option<ClearanceFit>)
        ensures
            match r {
                Some(v) => s@ == clearance_fit_name(v),
                None => forall|v: ClearanceFit| s@ != #[trigger] clearance_fit_name(v),
            },
    {
        if str_eq(s, "close") {
            return Some(ClearanceFit::Close);
        }
        if str_eq(s, "medium") {
            return Some(ClearanceFit::Medium);
        }
        if str_eq(s, "free") {
            return Some(ClearanceFit::Free);
        }
        None
    }
}

impl std::str::FromStr for ClearanceFit {
    type Err = String;

    fn from_str(s: &str) -> Result<ClearanceFit, String> {
        match ClearanceFit::from_name(s) {
            Some(v) => Ok(v),
            None => {
                let mut m = owned("unknown ClearanceFit: ");
                push_str(&mut m, s);
                Err(m)
            },
        }
    }
}

/// The standard each thread size belongs to.
pub open spec fn size_standard(s: ThreadSize) -> ThreadStandard {
    match s {
        ThreadSize::M1_6 | ThreadSize::M2 | ThreadSize::M2_5 | ThreadSize::M3 | ThreadSize::M4
        | ThreadSize::M5 | ThreadSize::M6 | ThreadSize::M8 | ThreadSize::M10 | ThreadSize::M12
        | ThreadSize::M14 | ThreadSize::M16 | ThreadSize::M20 | ThreadSize::M24
        | ThreadSize::M30 => ThreadStandard::IsoMetric,
        _ => ThreadStandard::Uts,
    }
}

impl ThreadSize {
    /// The standard this size belongs to.
    pub fn standard(self) -> (r: ThreadStandard)
        ensures
            r == size_standard(self),
    {
        match self {
            ThreadSize::M1_6 | ThreadSize::M2 | ThreadSize::M2_5 | ThreadSize::M3 | ThreadSize::M4
            | ThreadSize::M5 | ThreadSize::M6 | ThreadSize::M8 | ThreadSize::M10 | ThreadSize::M12
            | ThreadSize::M14 | ThreadSize::M16 | ThreadSize::M20 | ThreadSize::M24
            | ThreadSize::M30 => ThreadStandard::IsoMetric,
            _ => ThreadStandard::Uts,
        }
    }
}

} // verus!
