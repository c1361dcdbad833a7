//! The keyword vocabulary of the TEXT segment.
//!
//! A keyword is a `$`-prefixed key of the dictionary.  The required ones must
//! be present for a valid document; the optional ones may be absent.

use vstd::prelude::*;

verus! {

use crate::strutil::str_eq;

/// A keyword every valid document must carry.
#[derive(Debug, Clone, Copy, PartialEq, Eq, Structural)]
pub enum RequiredKeyword {
    BeginAnalysis,
    BeginData,
    BeginsText,
    Byteord,
    DataType,
    EndAnalysis,
    EndData,
    EndsText,
    Mode,
    NextData,
    Par,
    Tot,
}

/// A keyword a document may carry.
#[derive(Debug, Clone, Copy, PartialEq, Eq, Structural)]
pub enum OptionalKeyword {
    Abrt,
    Btim,
    Cells,
    Com,
    Csmode,
    Csvbits,
    Cyt,
    Cytsn,
    Date,
    Etim,
    Exp,
    Fil,
    Gate,
    Inst,
    LastModified,
    LastModifier,
    Lost,
    Op,
    Originality,
    PlateId,
    PlateName,
    Proj,
    Smno,
    Spillover,
    Src,
    Sys,
    Timestep,
    Tr,
    Vol,
    WellId,
}

impl RequiredKeyword {
    /// The dictionary key this keyword stands for.
    pub open spec fn spec_str(self) -> Seq<char> {
        match self {
            RequiredKeyword::BeginAnalysis => "$BEGINANALYSIS"@,
            RequiredKeyword::BeginData => "$BEGINDATA"@,
            RequiredKeyword::BeginsText => "$BEGINSTEXT"@,
            RequiredKeyword::Byteord => "$BYTEORD"@,
            RequiredKeyword::DataType => "$DATATYPE"@,
            RequiredKeyword::EndAnalysis => "$ENDANALYSIS"@,
            RequiredKeyword::EndData => "$ENDATA"@,
            RequiredKeyword::EndsText => "$ENDSTEXT"@,
            RequiredKeyword::Mode => "$MODE"@,
            RequiredKeyword::NextData => "$NEXTDATA"@,
            RequiredKeyword::Par => "$PAR"@,
            RequiredKeyword::Tot => "$TOT"@,
        }
    }

    /// The keyword a key names, if any.
    pub open spec fn spec_of(s: Seq<char>) -> Option<RequiredKeyword> {
        if s == "$BEGINANALYSIS"@ {
            Some(RequiredKeyword::BeginAnalysis)
        } else if s == "$BEGINDATA"@ {
            Some(RequiredKeyword::BeginData)
        } else if s == "$BEGINSTEXT"@ {
            Some(RequiredKeyword::BeginsText)
        } else if s == "$BYTEORD"@ {
            Some(RequiredKeyword::Byteord)
        } else if s == "$DATATYPE"@ {
            Some(RequiredKeyword::DataType)
        } else if s == "$ENDANALYSIS"@ {
            Some(RequiredKeyword::EndAnalysis)
        } else if s == "$ENDATA"@ {
            Some(RequiredKeyword::EndData)
        } else if s == "$ENDSTEXT"@ {
            Some(RequiredKeyword::EndsText)
        } else if s == "$MODE"@ {
            Some(RequiredKeyword::Mode)
        } else if s == "$NEXTDATA"@ {
            Some(RequiredKeyword::NextData)
        } else if s == "$PAR"@ {
            Some(RequiredKeyword::Par)
        } else if s == "$TOT"@ {
            Some(RequiredKeyword::Tot)
        } else {
            None
        }
    }

    /// Reads a key back into its keyword; fails on any other text.
    pub fn try_from(value: String) -> (r: Result<RequiredKeyword, &'static str>)
        ensures
            match RequiredKeyword::spec_of(value@) {
                Some(k) => r == Ok::<RequiredKeyword, &'static str>(k),
                None => r is Err,
            },
    {
        let v = value.as_str();
        if str_eq(v, "$BEGINANALYSIS") {
            Ok(RequiredKeyword::BeginAnalysis)
        } else if str_eq(v, "$BEGINDATA") {
            Ok(RequiredKeyword::BeginData)
        } else if str_eq(v, "$BEGINSTEXT") {
            Ok(RequiredKeyword::BeginsText)
        } else if str_eq(v, "$BYTEORD") {
            Ok(RequiredKeyword::Byteord)
        } else if str_eq(v, "$DATATYPE") {
            Ok(RequiredKeyword::DataType)
        } else if str_eq(v, "$ENDANALYSIS") {
            Ok(RequiredKeyword::EndAnalysis)
        } else if str_eq(v, "$ENDATA") {
            Ok(RequiredKeyword::EndData)
        } else if str_eq(v, "$ENDSTEXT") {
            Ok(RequiredKeyword::EndsText)
        } else if str_eq(v, "$MODE") {
            Ok(RequiredKeyword::Mode)
        } else if str_eq(v, "$NEXTDATA") {
            Ok(RequiredKeyword::NextData)
        } else if str_eq(v, "$PAR") {
            Ok(RequiredKeyword::Par)
        } else if str_eq(v, "$TOT") {
            Ok(RequiredKeyword::Tot)
        } else {
            Err("not a required FCS keyword")
        }
    }

    /// Writes the keyword as its dictionary key.
    pub fn to_string(&self) -> (r: String)
        ensures
            r@ == self.spec_str(),
    {
        match self {
            RequiredKeyword::BeginAnalysis => "$BEGINANALYSIS".to_owned(),
            RequiredKeyword::BeginData => "$BEGINDATA".to_owned(),
            RequiredKeyword::BeginsText => "$BEGINSTEXT".to_owned(),
            RequiredKeyword::Byteord => "$BYTEORD".to_owned(),
            RequiredKeyword::DataType => "$DATATYPE".to_owned(),
            RequiredKeyword::EndAnalysis => "$ENDANALYSIS".to_owned(),
            RequiredKeyword::EndData => "$ENDATA".to_owned(),
            RequiredKeyword::EndsText => "$ENDSTEXT".to_owned(),
            RequiredKeyword::Mode => "$MODE".to_owned(),
            RequiredKeyword::NextData => "$NEXTDATA".to_owned(),
            RequiredKeyword::Par => "$PAR".to_owned(),
            RequiredKeyword::Tot => "$TOT".to_owned(),
        }
    }
}

impl OptionalKeyword {
    /// The dictionary key this keyword stands for.
    pub open spec fn spec_str(self) -> Seq<char> {
        match self {
            OptionalKeyword::Abrt => "$ABRT"@,
            OptionalKeyword::Btim => "$BTIM"@,
            OptionalKeyword::Cells => "$CELLS"@,
            OptionalKeyword::Com => "$COM"@,
            OptionalKeyword::Csmode => "$CSMODE"@,
            OptionalKeyword::Csvbits => "$CSVBITS"@,
            OptionalKeyword::Cyt => "$CYT"@,
            OptionalKeyword::Cytsn => "$CYTSN"@,
            OptionalKeyword::Date => "$DATE"@,
            OptionalKeyword::Etim => "$ETIM"@,
            OptionalKeyword::Exp => "$EXP"@,
            OptionalKeyword::Fil => "$FIL"@,
            OptionalKeyword::Gate => "$GATE"@,
            OptionalKeyword::Inst => "$INST"@,
            OptionalKeyword::LastModified => "$LAST_MODIFIED"@,
            OptionalKeyword::LastModifier => "$LAST_MODIFIER"@,
            OptionalKeyword::Lost => "$LOST"@,
            OptionalKeyword::Op => "$OP"@,
            OptionalKeyword::Originality => "$ORIGINALITY"@,
            OptionalKeyword::PlateId => "$PLATEID"@,
            OptionalKeyword::PlateName => "$PLATENAME"@,
            OptionalKeyword::Proj => "$PROJ"@,
            OptionalKeyword::Smno => "$SMNO"@,
            OptionalKeyword::Spillover => "$SPILLOVER"@,
            OptionalKeyword::Src => "$SRC"@,
            OptionalKeyword::Sys => "$SYS"@,
            OptionalKeyword::Timestep => "$TIMESTEP"@,
            OptionalKeyword::Tr => "$TR"@,
            OptionalKeyword::Vol => "$VOL"@,
            OptionalKeyword::WellId => "$WELLID"@,
        }
    }

    /// The keyword a key names, if any.
    pub open spec fn spec_of(s: Seq<char>) -> Option<OptionalKeyword> {
        if s == "$ABRT"@ {
            Some(OptionalKeyword::Abrt)
        } else if s == "$BTIM"@ {
            Some(OptionalKeyword::Btim)
        } else if s == "$CELLS"@ {
            Some(OptionalKeyword::Cells)
        } else if s == "$COM"@ {
            Some(OptionalKeyword::Com)
        } else if s == "$CSMODE"@ {
            Some(OptionalKeyword::Csmode)
        } else if s == "$CSVBITS"@ {
            Some(OptionalKeyword::Csvbits)
        } else if s == "$CYT"@ {
            Some(OptionalKeyword::Cyt)
        } else if s == "$CYTSN"@ {
            Some(OptionalKeyword::Cytsn)
        } else if s == "$DATE"@ {
            Some(OptionalKeyword::Date)
        } else if s == "$ETIM"@ {
            Some(OptionalKeyword::Etim)
        } else if s == "$EXP"@ {
            Some(OptionalKeyword::Exp)
        } else if s == "$FIL"@ {
            Some(OptionalKeyword::Fil)
        } else if s == "$GATE"@ {
            Some(OptionalKeyword::Gate)
        } else if s == "$INST"@ {
            Some(OptionalKeyword::Inst)
        } else if s == "$LAST_MODIFIED"@ {
            Some(OptionalKeyword::LastModified)
        } else if s == "$LAST_MODIFIER"@ {
            Some(OptionalKeyword::LastModifier)
        } else if s == "$LOST"@ {
            Some(OptionalKeyword::Lost)
        } else if s == "$OP"@ {
            Some(OptionalKeyword::Op)
        } else if s == "$ORIGINALITY"@ {
            Some(OptionalKeyword::Originality)
        } else if s == "$PLATEID"@ {
            Some(OptionalKeyword::PlateId)
        } else if s == "$PLATENAME"@ {
            Some(OptionalKeyword::PlateName)
        } else if s == "$PROJ"@ {
            Some(OptionalKeyword::Proj)
        } else if s == "$SMNO"@ {
            Some(OptionalKeyword::Smno)
        } else if s == "$SPILLOVER"@ {
            Some(OptionalKeyword::Spillover)
        } else if s == "$SRC"@ {
            Some(OptionalKeyword::Src)
        } else if s == "$SYS"@ {
            Some(OptionalKeyword::Sys)
        } else if s == "$TIMESTEP"@ {
            Some(OptionalKeyword::Timestep)
        } else if s == "$TR"@ {
            Some(OptionalKeyword::Tr)
        } else if s == "$VOL"@ {
            Some(OptionalKeyword::Vol)
        } else if s == "$WELLID"@ {
            Some(OptionalKeyword::WellId)
        } else {
            None
        }
    }

    /// Reads a key back into its keyword; fails on any other text.
    pub fn try_from(value: String) -> (r: Result<OptionalKeyword, &'static str>)
        ensures
            match OptionalKeyword::spec_of(value@) {
                Some(k) => r == Ok::<OptionalKeyword, &'static str>(k),
                None => r is Err,
            },
    {
        let v = value.as_str();
        if str_eq(v, "$ABRT") {
            Ok(OptionalKeyword::Abrt)
        } else if str_eq(v, "$BTIM") {
            Ok(OptionalKeyword::Btim)
        } else if str_eq(v, "$CELLS") {
            Ok(OptionalKeyword::Cells)
        } else if str_eq(v, "$COM") {
            Ok(OptionalKeyword::Com)
        } else if str_eq(v, "$CSMODE") {
            Ok(OptionalKeyword::Csmode)
        } else if str_eq(v, "$CSVBITS") {
            Ok(OptionalKeyword::Csvbits)
        } else if str_eq(v, "$CYT") {
            Ok(OptionalKeyword::Cyt)
        } else if str_eq(v, "$CYTSN") {
            Ok(OptionalKeyword::Cytsn)
        } else if str_eq(v, "$DATE") {
            Ok(OptionalKeyword::Date)
        } else if str_eq(v, "$ETIM") {
            Ok(OptionalKeyword::Etim)
        } else if str_eq(v, "$EXP") {
            Ok(OptionalKeyword::Exp)
        } else if str_eq(v, "$FIL") {
            Ok(OptionalKeyword::Fil)
        } else if str_eq(v, "$GATE") {
            Ok(OptionalKeyword::Gate)
        } else if str_eq(v, "$INST") {
            Ok(OptionalKeyword::Inst)
        } else if str_eq(v, "$LAST_MODIFIED") {
            Ok(OptionalKeyword::LastModified)
        } else if str_eq(v, "$LAST_MODIFIER") {
            Ok(OptionalKeyword::LastModifier)
        } else if str_eq(v, "$LOST") {
            Ok(OptionalKeyword::Lost)
        } else if str_eq(v, "$OP") {
            Ok(OptionalKeyword::Op)
        } else if str_eq(v, "$ORIGINALITY") {
            Ok(OptionalKeyword::Originality)
        } else if str_eq(v, "$PLATEID") {
            Ok(OptionalKeyword::PlateId)
        } else if str_eq(v, "$PLATENAME") {
            Ok(OptionalKeyword::PlateName)
        } else if str_eq(v, "$PROJ") {
            Ok(OptionalKeyword::Proj)
        } else if str_eq(v, "$SMNO") {
            Ok(OptionalKeyword::Smno)
        } else if str_eq(v, "$SPILLOVER") {
            Ok(OptionalKeyword::Spillover)
        } else if str_eq(v, "$SRC") {
            Ok(OptionalKeyword::Src)
        } else if str_eq(v, "$SYS") {
            Ok(OptionalKeyword::Sys)
        } else if str_eq(v, "$TIMESTEP") {
            Ok(OptionalKeyword::Timestep)
        } else if str_eq(v, "$TR") {
            Ok(OptionalKeyword::Tr)
        } else if str_eq(v, "$VOL") {
            Ok(OptionalKeyword::Vol)
        } else if str_eq(v, "$WELLID") {
            Ok(OptionalKeyword::WellId)
        } else {
            Err("not an optional FCS keyword")
        }
    }

    /// Writes the keyword as its dictionary key.
    pub fn to_string(&self) -> (r: String)
        ensures
            r@ == self.spec_str(),
    {
        match self {
            OptionalKeyword::Abrt => "$ABRT".to_owned(),
            OptionalKeyword::Btim => "$BTIM".to_owned(),
            OptionalKeyword::Cells => "$CELLS".to_owned(),
            OptionalKeyword::Com => "$COM".to_owned(),
            OptionalKeyword::Csmode => "$CSMODE".to_owned(),
            OptionalKeyword::Csvbits => "$CSVBITS".to_owned(),
            OptionalKeyword::Cyt => "$CYT".to_owned(),
            OptionalKeyword::Cytsn => "$CYTSN".to_owned(),
            OptionalKeyword::Date => "$DATE".to_owned(),
            OptionalKeyword::Etim => "$ETIM".to_owned(),
            OptionalKeyword::Exp => "$EXP".to_owned(),
            OptionalKeyword::Fil => "$FIL".to_owned(),
            OptionalKeyword::Gate => "$GATE".to_owned(),
            OptionalKeyword::Inst => "$INST".to_owned(),
            OptionalKeyword::LastModified => "$LAST_MODIFIED".to_owned(),
            OptionalKeyword::LastModifier => "$LAST_MODIFIER".to_owned(),
            OptionalKeyword::Lost => "$LOST".to_owned(),
            OptionalKeyword::Op => "$OP".to_owned(),
            OptionalKeyword::Originality => "$ORIGINALITY".to_owned(),
            OptionalKeyword::PlateId => "$PLATEID".to_owned(),
            OptionalKeyword::PlateName => "$PLATENAME".to_owned(),
            OptionalKeyword::Proj => "$PROJ".to_owned(),
            OptionalKeyword::Smno => "$SMNO".to_owned(),
            OptionalKeyword::Spillover => "$SPILLOVER".to_owned(),
            OptionalKeyword::Src => "$SRC".to_owned(),
            OptionalKeyword::Sys => "$SYS".to_owned(),
            OptionalKeyword::Timestep => "$TIMESTEP".to_owned(),
            OptionalKeyword::Tr => "$TR".to_owned(),
            OptionalKeyword::Vol => "$VOL".to_owned(),
            OptionalKeyword::WellId => "$WELLID".to_owned(),
        }
    }
}

} // verus!
