//! Sites, and the states and provinces they lie in.

use vstd::prelude::*;
use crate::optional::{copy_text, same_text, text_of, IntoOption};
use crate::trusted::variant_not_found;
use vstd::string::StringExecFns;

verus! {

/// State, province and territory abbreviations that a site may carry.
#[derive(Debug, Clone, Copy, PartialEq, Eq, Structural)]
#[allow(missing_docs)]
pub enum StateProv {
    AL,  // Alabama
    AK,  // Alaska
    AZ,  // Arizona
    AR,  // Arkansas
    CA,  // California
    CO,  // Colorado
    CT,  // Connecticut
    DE,  // Delaware
    FL,  // Florida
    GA,  // Georgia
    HI,  // Hawaii
    ID,  // Idaho
    IL,  // Illinois
    IN,  // Indiana
    IA,  // Iowa
    KS,  // Kansas
    KY,  // Kentucky
    LA,  // Louisiana
    ME,  // Maine
    MD,  // Maryland
    MA,  // Massachusetts
    MI,  // Michigan
    MN,  // Minnesota
    MS,  // Mississippi
    MO,  // Missouri
    MT,  // Montana
    NE,  // Nebraska
    NV,  // Nevada
    NH,  // New Hampshire
    NJ,  // New Jersey
    NM,  // New Mexico
    NY,  // New York
    NC,  // North Carolina
    ND,  // North Dakota
    OH,  // Ohio
    OK,  // Oklahoma
    OR,  // Oregon
    PA,  // Pennsylvania
    RI,  // Rhode Island
    SC,  // South Carolina
    SD,  // South Dakota
    TN,  // Tennessee
    TX,  // Texas
    UT,  // Utah
    VT,  // Vermont
    VA,  // Virginia
    WA,  // Washington
    WV,  // West Virginia
    WI,  // Wisconsin
    WY,  // Wyoming
    // Commonwealth and territories
    AS,  // American Samoa
    DC,  // District of Columbia
    FM,  // Federated States of Micronesia
    MH,  // Marshall Islands
    MP,  // Northern Mariana Islands
    PW,  // Palau
    PR,  // Puerto Rico
    VI,  // Virgin Islands
}

impl StateProv {
    /// The two letters that stand for this state or province.
    pub open spec fn abbreviation(self) -> Seq<char> {
        match self {
            StateProv::AL => "AL"@,
            StateProv::AK => "AK"@,
            StateProv::AZ => "AZ"@,
            StateProv::AR => "AR"@,
            StateProv::CA => "CA"@,
            StateProv::CO => "CO"@,
            StateProv::CT => "CT"@,
            StateProv::DE => "DE"@,
            StateProv::FL => "FL"@,
            StateProv::GA => "GA"@,
            StateProv::HI => "HI"@,
            StateProv::ID => "ID"@,
            StateProv::IL => "IL"@,
            StateProv::IN => "IN"@,
            StateProv::IA => "IA"@,
            StateProv::KS => "KS"@,
            StateProv::KY => "KY"@,
            StateProv::LA => "LA"@,
            StateProv::ME => "ME"@,
            StateProv::MD => "MD"@,
            StateProv::MA => "MA"@,
            StateProv::MI => "MI"@,
            StateProv::MN => "MN"@,
            StateProv::MS => "MS"@,
            StateProv::MO => "MO"@,
            StateProv::MT => "MT"@,
            StateProv::NE => "NE"@,
            StateProv::NV => "NV"@,
            StateProv::NH => "NH"@,
            StateProv::NJ => "NJ"@,
            StateProv::NM => "NM"@,
            StateProv::NY => "NY"@,
            StateProv::NC => "NC"@,
            StateProv::ND => "ND"@,
            StateProv::OH => "OH"@,
            StateProv::OK => "OK"@,
            StateProv::OR => "OR"@,
            StateProv::PA => "PA"@,
            StateProv::RI => "RI"@,
            StateProv::SC => "SC"@,
            StateProv::SD => "SD"@,
            StateProv::TN => "TN"@,
            StateProv::TX => "TX"@,
            StateProv::UT => "UT"@,
            StateProv::VT => "VT"@,
            StateProv::VA => "VA"@,
            StateProv::WA => "WA"@,
            StateProv::WV => "WV"@,
            StateProv::WI => "WI"@,
            StateProv::WY => "WY"@,
            StateProv::AS => "AS"@,
            StateProv::DC => "DC"@,
            StateProv::FM => "FM"@,
            StateProv::MH => "MH"@,
            StateProv::MP => "MP"@,
            StateProv::PW => "PW"@,
            StateProv::PR => "PR"@,
            StateProv::VI => "VI"@,
        }
    }

    /// Every abbreviation, in the order of declaration.
    pub open spec fn all() -> Seq<StateProv> {
        seq![
            StateProv::AL, StateProv::AK, StateProv::AZ, StateProv::AR, StateProv::CA,
            StateProv::CO, StateProv::CT, StateProv::DE, StateProv::FL, StateProv::GA,
            StateProv::HI, StateProv::ID, StateProv::IL, StateProv::IN, StateProv::IA,
            StateProv::KS, StateProv::KY, StateProv::LA, StateProv::ME, StateProv::MD,
            StateProv::MA, StateProv::MI, StateProv::MN, StateProv::MS, StateProv::MO,
            StateProv::MT, StateProv::NE, StateProv::NV, StateProv::NH, StateProv::NJ,
            StateProv::NM, StateProv::NY, StateProv::NC, StateProv::ND, StateProv::OH,
            StateProv::OK, StateProv::OR, StateProv::PA, StateProv::RI, StateProv::SC,
            StateProv::SD, StateProv::TN, StateProv::TX, StateProv::UT, StateProv::VT,
            StateProv::VA, StateProv::WA, StateProv::WV, StateProv::WI, StateProv::WY,
            StateProv::AS, StateProv::DC, StateProv::FM, StateProv::MH, StateProv::MP,
            StateProv::PW, StateProv::PR, StateProv::VI,
        ]
    }

    /// The abbreviation as text.
    pub fn as_static(&self) -> (s: &'static str)
        ensures
            s@ == self.abbreviation(),
    {
        match self {
            StateProv::AL => "AL",
            StateProv::AK => "AK",
            StateProv::AZ => "AZ",
            StateProv::AR => "AR",
            StateProv::CA => "CA",
            StateProv::CO => "CO",
            StateProv::CT => "CT",
            StateProv::DE => "DE",
            StateProv::FL => "FL",
            StateProv::GA => "GA",
            StateProv::HI => "HI",
            StateProv::ID => "ID",
            StateProv::IL => "IL",
            StateProv::IN => "IN",
            StateProv::IA => "IA",
            StateProv::KS => "KS",
            StateProv::KY => "KY",
            StateProv::LA => "LA",
            StateProv::ME => "ME",
            StateProv::MD => "MD",
            StateProv::MA => "MA",
            StateProv::MI => "MI",
            StateProv::MN => "MN",
            StateProv::MS => "MS",
            StateProv::MO => "MO",
            StateProv::MT => "MT",
            StateProv::NE => "NE",
            StateProv::NV => "NV",
            StateProv::NH => "NH",
            StateProv::NJ => "NJ",
            StateProv::NM => "NM",
            StateProv::NY => "NY",
            StateProv::NC => "NC",
            StateProv::ND => "ND",
            StateProv::OH => "OH",
            StateProv::OK => "OK",
            StateProv::OR => "OR",
            StateProv::PA => "PA",
            StateProv::RI => "RI",
            StateProv::SC => "SC",
            StateProv::SD => "SD",
            StateProv::TN => "TN",
            StateProv::TX => "TX",
            StateProv::UT => "UT",
            StateProv::VT => "VT",
            StateProv::VA => "VA",
            StateProv::WA => "WA",
            StateProv::WV => "WV",
            StateProv::WI => "WI",
            StateProv::WY => "WY",
            StateProv::AS => "AS",
            StateProv::DC => "DC",
            StateProv::FM => "FM",
            StateProv::MH => "MH",
            StateProv::MP => "MP",
            StateProv::PW => "PW",
            StateProv::PR => "PR",
            StateProv::VI => "VI",
        }
    }

    /// The state or province that `text` is the abbreviation of, if it is
    /// the abbreviation of one.
    pub open spec fn named(text: Seq<char>) -> Option<StateProv> {
        if exists|state: StateProv| state.abbreviation() == text {
            Some(choose|state: StateProv| state.abbreviation() == text)
        } else {
            None
        }
    }

    /// Reads an abbreviation. The match is exact: two upper case letters.
    pub fn from_str(s: &str) -> (r: Result<StateProv, strum::ParseError>)
        ensures
            match r {
                Ok(state) => state.abbreviation() == s@ && Self::named(s@) == Some(state),
                Err(_) => Self::named(s@) is None && forall|state: StateProv|
                    state.abbreviation() != s@,
            },
    {
        proof {
            reveal_abbreviations();
        }
        if s.unicode_len() != 2 {
            return Err(variant_not_found());
        }
        let a = s.get_char(0);
        let b = s.get_char(1);
        let found =
        if a == 'A' && b == 'L' {
            Some(StateProv::AL)
        } else if a == 'A' && b == 'K' {
            Some(StateProv::AK)
        } else if a == 'A' && b == 'Z' {
            Some(StateProv::AZ)
        } else if a == 'A' && b == 'R' {
            Some(StateProv::AR)
        } else if a == 'C' && b == 'A' {
            Some(StateProv::CA)
        } else if a == 'C' && b == 'O' {
            Some(StateProv::CO)
        } else if a == 'C' && b == 'T' {
            Some(StateProv::CT)
        } else if a == 'D' && b == 'E' {
            Some(StateProv::DE)
        } else if a == 'F' && b == 'L' {
            Some(StateProv::FL)
        } else if a == 'G' && b == 'A' {
            Some(StateProv::GA)
        } else if a == 'H' && b == 'I' {
            Some(StateProv::HI)
        } else if a == 'I' && b == 'D' {
            Some(StateProv::ID)
        } else if a == 'I' && b == 'L' {
            Some(StateProv::IL)
        } else if a == 'I' && b == 'N' {
            Some(StateProv::IN)
        } else if a == 'I' && b == 'A' {
            Some(StateProv::IA)
        } else if a == 'K' && b == 'S' {
            Some(StateProv::KS)
        } else if a == 'K' && b == 'Y' {
            Some(StateProv::KY)
        } else if a == 'L' && b == 'A' {
            Some(StateProv::LA)
        } else if a == 'M' && b == 'E' {
            Some(StateProv::ME)
        } else if a == 'M' && b == 'D' {
            Some(StateProv::MD)
        } else if a == 'M' && b == 'A' {
            Some(StateProv::MA)
        } else if a == 'M' && b == 'I' {
            Some(StateProv::MI)
        } else if a == 'M' && b == 'N' {
            Some(StateProv::MN)
        } else if a == 'M' && b == 'S' {
            Some(StateProv::MS)
        } else if a == 'M' && b == 'O' {
            Some(StateProv::MO)
        } else if a == 'M' && b == 'T' {
            Some(StateProv::MT)
        } else if a == 'N' && b == 'E' {
            Some(StateProv::NE)
        } else if a == 'N' && b == 'V' {
            Some(StateProv::NV)
        } else if a == 'N' && b == 'H' {
            Some(StateProv::NH)
        } else if a == 'N' && b == 'J' {
            Some(StateProv::NJ)
        } else if a == 'N' && b == 'M' {
            Some(StateProv::NM)
        } else if a == 'N' && b == 'Y' {
            Some(StateProv::NY)
        } else if a == 'N' && b == 'C' {
            Some(StateProv::NC)
        } else if a == 'N' && b == 'D' {
            Some(StateProv::ND)
        } else if a == 'O' && b == 'H' {
            Some(StateProv::OH)
        } else if a == 'O' && b == 'K' {
            Some(StateProv::OK)
        } else if a == 'O' && b == 'R' {
            Some(StateProv::OR)
        } else if a == 'P' && b == 'A' {
            Some(StateProv::PA)
        } else if a == 'R' && b == 'I' {
            Some(StateProv::RI)
        } else if a == 'S' && b == 'C' {
            Some(StateProv::SC)
        } else if a == 'S' && b == 'D' {
            Some(StateProv::SD)
        } else if a == 'T' && b == 'N' {
            Some(StateProv::TN)
        } else if a == 'T' && b == 'X' {
            Some(StateProv::TX)
        } else if a == 'U' && b == 'T' {
            Some(StateProv::UT)
        } else if a == 'V' && b == 'T' {
            Some(StateProv::VT)
        } else if a == 'V' && b == 'A' {
            Some(StateProv::VA)
        } else if a == 'W' && b == 'A' {
            Some(StateProv::WA)
        } else if a == 'W' && b == 'V' {
            Some(StateProv::WV)
        } else if a == 'W' && b == 'I' {
            Some(StateProv::WI)
        } else if a == 'W' && b == 'Y' {
            Some(StateProv::WY)
        } else if a == 'A' && b == 'S' {
            Some(StateProv::AS)
        } else if a == 'D' && b == 'C' {
            Some(StateProv::DC)
        } else if a == 'F' && b == 'M' {
            Some(StateProv::FM)
        } else if a == 'M' && b == 'H' {
            Some(StateProv::MH)
        } else if a == 'M' && b == 'P' {
            Some(StateProv::MP)
        } else if a == 'P' && b == 'W' {
            Some(StateProv::PW)
        } else if a == 'P' && b == 'R' {
            Some(StateProv::PR)
        } else if a == 'V' && b == 'I' {
            Some(StateProv::VI)
        } else {
            None
        };
        match found {
            Some(state) => {
                assert(s@ =~= state.abbreviation());
                proof {
                    abbreviation_is_one_to_one(Self::named(s@)->0, state);
                }
                Ok(state)
            },
            None => {
                assert forall|state: StateProv| state.abbreviation() != s@ by {
                    let text = state.abbreviation();
                    assert(text.len() == 2 && (text[0] != a || text[1] != b));
                }
                Err(variant_not_found())
            },
        }
    }

    /// All the abbreviations, each once, in the order of declaration.
    pub fn iter() -> (r: Vec<StateProv>)
        ensures
            r@ == Self::all(),
    {
        let r = vec![
            StateProv::AL, StateProv::AK, StateProv::AZ, StateProv::AR, StateProv::CA,
            StateProv::CO, StateProv::CT, StateProv::DE, StateProv::FL, StateProv::GA,
            StateProv::HI, StateProv::ID, StateProv::IL, StateProv::IN, StateProv::IA,
            StateProv::KS, StateProv::KY, StateProv::LA, StateProv::ME, StateProv::MD,
            StateProv::MA, StateProv::MI, StateProv::MN, StateProv::MS, StateProv::MO,
            StateProv::MT, StateProv::NE, StateProv::NV, StateProv::NH, StateProv::NJ,
            StateProv::NM, StateProv::NY, StateProv::NC, StateProv::ND, StateProv::OH,
            StateProv::OK, StateProv::OR, StateProv::PA, StateProv::RI, StateProv::SC,
            StateProv::SD, StateProv::TN, StateProv::TX, StateProv::UT, StateProv::VT,
            StateProv::VA, StateProv::WA, StateProv::WV, StateProv::WI, StateProv::WY,
            StateProv::AS, StateProv::DC, StateProv::FM, StateProv::MH, StateProv::MP,
            StateProv::PW, StateProv::PR, StateProv::VI,
        ];
        assert(r@ =~= Self::all());
        r
    }
}

/// What each abbreviation's text holds, letter by letter.
proof fn reveal_abbreviations()
    ensures
        forall|state: StateProv| #[trigger] state.abbreviation().len() == 2,
        StateProv::AL.abbreviation()[0] == 'A' && StateProv::AL.abbreviation()[1] == 'L',
        StateProv::AK.abbreviation()[0] == 'A' && StateProv::AK.abbreviation()[1] == 'K',
        StateProv::AZ.abbreviation()[0] == 'A' && StateProv::AZ.abbreviation()[1] == 'Z',
        StateProv::AR.abbreviation()[0] == 'A' && StateProv::AR.abbreviation()[1] == 'R',
        StateProv::CA.abbreviation()[0] == 'C' && StateProv::CA.abbreviation()[1] == 'A',
        StateProv::CO.abbreviation()[0] == 'C' && StateProv::CO.abbreviation()[1] == 'O',
        StateProv::CT.abbreviation()[0] == 'C' && StateProv::CT.abbreviation()[1] == 'T',
        StateProv::DE.abbreviation()[0] == 'D' && StateProv::DE.abbreviation()[1] == 'E',
        StateProv::FL.abbreviation()[0] == 'F' && StateProv::FL.abbreviation()[1] == 'L',
        StateProv::GA.abbreviation()[0] == 'G' && StateProv::GA.abbreviation()[1] == 'A',
        StateProv::HI.abbreviation()[0] == 'H' && StateProv::HI.abbreviation()[1] == 'I',
        StateProv::ID.abbreviation()[0] == 'I' && StateProv::ID.abbreviation()[1] == 'D',
        StateProv::IL.abbreviation()[0] == 'I' && StateProv::IL.abbreviation()[1] == 'L',
        StateProv::IN.abbreviation()[0] == 'I' && StateProv::IN.abbreviation()[1] == 'N',
        StateProv::IA.abbreviation()[0] == 'I' && StateProv::IA.abbreviation()[1] == 'A',
        StateProv::KS.abbreviation()[0] == 'K' && StateProv::KS.abbreviation()[1] == 'S',
        StateProv::KY.abbreviation()[0] == 'K' && StateProv::KY.abbreviation()[1] == 'Y',
        StateProv::LA.abbreviation()[0] == 'L' && StateProv::LA.abbreviation()[1] == 'A',
        StateProv::ME.abbreviation()[0] == 'M' && StateProv::ME.abbreviation()[1] == 'E',
        StateProv::MD.abbreviation()[0] == 'M' && StateProv::MD.abbreviation()[1] == 'D',
        StateProv::MA.abbreviation()[0] == 'M' && StateProv::MA.abbreviation()[1] == 'A',
        StateProv::MI.abbreviation()[0] == 'M' && StateProv::MI.abbreviation()[1] == 'I',
        StateProv::MN.abbreviation()[0] == 'M' && StateProv::MN.abbreviation()[1] == 'N',
        StateProv::MS.abbreviation()[0] == 'M' && StateProv::MS.abbreviation()[1] == 'S',
        StateProv::MO.abbreviation()[0] == 'M' && StateProv::MO.abbreviation()[1] == 'O',
        StateProv::MT.abbreviation()[0] == 'M' && StateProv::MT.abbreviation()[1] == 'T',
        StateProv::NE.abbreviation()[0] == 'N' && StateProv::NE.abbreviation()[1] == 'E',
        StateProv::NV.abbreviation()[0] == 'N' && StateProv::NV.abbreviation()[1] == 'V',
        StateProv::NH.abbreviation()[0] == 'N' && StateProv::NH.abbreviation()[1] == 'H',
        StateProv::NJ.abbreviation()[0] == 'N' && StateProv::NJ.abbreviation()[1] == 'J',
        StateProv::NM.abbreviation()[0] == 'N' && StateProv::NM.abbreviation()[1] == 'M',
        StateProv::NY.abbreviation()[0] == 'N' && StateProv::NY.abbreviation()[1] == 'Y',
        StateProv::NC.abbreviation()[0] == 'N' && StateProv::NC.abbreviation()[1] == 'C',
        StateProv::ND.abbreviation()[0] == 'N' && StateProv::ND.abbreviation()[1] == 'D',
        StateProv::OH.abbreviation()[0] == 'O' && StateProv::OH.abbreviation()[1] == 'H',
        StateProv::OK.abbreviation()[0] == 'O' && StateProv::OK.abbreviation()[1] == 'K',
        StateProv::OR.abbreviation()[0] == 'O' && StateProv::OR.abbreviation()[1] == 'R',
        StateProv::PA.abbreviation()[0] == 'P' && StateProv::PA.abbreviation()[1] == 'A',
        StateProv::RI.abbreviation()[0] == 'R' && StateProv::RI.abbreviation()[1] == 'I',
        StateProv::SC.abbreviation()[0] == 'S' && StateProv::SC.abbreviation()[1] == 'C',
        StateProv::SD.abbreviation()[0] == 'S' && StateProv::SD.abbreviation()[1] == 'D',
        StateProv::TN.abbreviation()[0] == 'T' && StateProv::TN.abbreviation()[1] == 'N',
        StateProv::TX.abbreviation()[0] == 'T' && StateProv::TX.abbreviation()[1] == 'X',
        StateProv::UT.abbreviation()[0] == 'U' && StateProv::UT.abbreviation()[1] == 'T',
        StateProv::VT.abbreviation()[0] == 'V' && StateProv::VT.abbreviation()[1] == 'T',
        StateProv::VA.abbreviation()[0] == 'V' && StateProv::VA.abbreviation()[1] == 'A',
        StateProv::WA.abbreviation()[0] == 'W' && StateProv::WA.abbreviation()[1] == 'A',
        StateProv::WV.abbreviation()[0] == 'W' && StateProv::WV.abbreviation()[1] == 'V',
        StateProv::WI.abbreviation()[0] == 'W' && StateProv::WI.abbreviation()[1] == 'I',
        StateProv::WY.abbreviation()[0] == 'W' && StateProv::WY.abbreviation()[1] == 'Y',
        StateProv::AS.abbreviation()[0] == 'A' && StateProv::AS.abbreviation()[1] == 'S',
        StateProv::DC.abbreviation()[0] == 'D' && StateProv::DC.abbreviation()[1] == 'C',
        StateProv::FM.abbreviation()[0] == 'F' && StateProv::FM.abbreviation()[1] == 'M',
        StateProv::MH.abbreviation()[0] == 'M' && StateProv::MH.abbreviation()[1] == 'H',
        StateProv::MP.abbreviation()[0] == 'M' && StateProv::MP.abbreviation()[1] == 'P',
        StateProv::PW.abbreviation()[0] == 'P' && StateProv::PW.abbreviation()[1] == 'W',
        StateProv::PR.abbreviation()[0] == 'P' && StateProv::PR.abbreviation()[1] == 'R',
        StateProv::VI.abbreviation()[0] == 'V' && StateProv::VI.abbreviation()[1] == 'I',
{
    reveal_strlit("AL");
    reveal_strlit("AK");
    reveal_strlit("AZ");
    reveal_strlit("AR");
    reveal_strlit("CA");
    reveal_strlit("CO");
    reveal_strlit("CT");
    reveal_strlit("DE");
    reveal_strlit("FL");
    reveal_strlit("GA");
    reveal_strlit("HI");
    reveal_strlit("ID");
    reveal_strlit("IL");
    reveal_strlit("IN");
    reveal_strlit("IA");
    reveal_strlit("KS");
    reveal_strlit("KY");
    reveal_strlit("LA");
    reveal_strlit("ME");
    reveal_strlit("MD");
    reveal_strlit("MA");
    reveal_strlit("MI");
    reveal_strlit("MN");
    reveal_strlit("MS");
    reveal_strlit("MO");
    reveal_strlit("MT");
    reveal_strlit("NE");
    reveal_strlit("NV");
    reveal_strlit("NH");
    reveal_strlit("NJ");
    reveal_strlit("NM");
    reveal_strlit("NY");
    reveal_strlit("NC");
    reveal_strlit("ND");
    reveal_strlit("OH");
    reveal_strlit("OK");
    reveal_strlit("OR");
    reveal_strlit("PA");
    reveal_strlit("RI");
    reveal_strlit("SC");
    reveal_strlit("SD");
    reveal_strlit("TN");
    reveal_strlit("TX");
    reveal_strlit("UT");
    reveal_strlit("VT");
    reveal_strlit("VA");
    reveal_strlit("WA");
    reveal_strlit("WV");
    reveal_strlit("WI");
    reveal_strlit("WY");
    reveal_strlit("AS");
    reveal_strlit("DC");
    reveal_strlit("FM");
    reveal_strlit("MH");
    reveal_strlit("MP");
    reveal_strlit("PW");
    reveal_strlit("PR");
    reveal_strlit("VI");
}

/// No two abbreviations share their text, so reading back what `as_static`
/// gives returns the abbreviation one started from.
pub proof fn abbreviation_is_one_to_one(a: StateProv, b: StateProv)
    requires
        a.abbreviation() == b.abbreviation(),
    ensures
        a == b,
{
    reveal_abbreviations();
    let text = a.abbreviation();
    assert(text[0] == b.abbreviation()[0] && text[1] == b.abbreviation()[1]);
}

/// `iter` leaves no abbreviation out.
pub proof fn every_state_prov_is_listed(state: StateProv)
    ensures
        StateProv::all().contains(state),
{
    let all = StateProv::all();
    match state {
        StateProv::AL => assert(all[0] == state),
        StateProv::AK => assert(all[1] == state),
        StateProv::AZ => assert(all[2] == state),
        StateProv::AR => assert(all[3] == state),
        StateProv::CA => assert(all[4] == state),
        StateProv::CO => assert(all[5] == state),
        StateProv::CT => assert(all[6] == state),
        StateProv::DE => assert(all[7] == state),
        StateProv::FL => assert(all[8] == state),
        StateProv::GA => assert(all[9] == state),
        StateProv::HI => assert(all[10] == state),
        StateProv::ID => assert(all[11] == state),
        StateProv::IL => assert(all[12] == state),
        StateProv::IN => assert(all[13] == state),
        StateProv::IA => assert(all[14] == state),
        StateProv::KS => assert(all[15] == state),
        StateProv::KY => assert(all[16] == state),
        StateProv::LA => assert(all[17] == state),
        StateProv::ME => assert(all[18] == state),
        StateProv::MD => assert(all[19] == state),
        StateProv::MA => assert(all[20] == state),
        StateProv::MI => assert(all[21] == state),
        StateProv::MN => assert(all[22] == state),
        StateProv::MS => assert(all[23] == state),
        StateProv::MO => assert(all[24] == state),
        StateProv::MT => assert(all[25] == state),
        StateProv::NE => assert(all[26] == state),
        StateProv::NV => assert(all[27] == state),
        StateProv::NH => assert(all[28] == state),
        StateProv::NJ => assert(all[29] == state),
        StateProv::NM => assert(all[30] == state),
        StateProv::NY => assert(all[31] == state),
        StateProv::NC => assert(all[32] == state),
        StateProv::ND => assert(all[33] == state),
        StateProv::OH => assert(all[34] == state),
        StateProv::OK => assert(all[35] == state),
        StateProv::OR => assert(all[36] == state),
        StateProv::PA => assert(all[37] == state),
        StateProv::RI => assert(all[38] == state),
        StateProv::SC => assert(all[39] == state),
        StateProv::SD => assert(all[40] == state),
        StateProv::TN => assert(all[41] == state),
        StateProv::TX => assert(all[42] == state),
        StateProv::UT => assert(all[43] == state),
        StateProv::VT => assert(all[44] == state),
        StateProv::VA => assert(all[45] == state),
        StateProv::WA => assert(all[46] == state),
        StateProv::WV => assert(all[47] == state),
        StateProv::WI => assert(all[48] == state),
        StateProv::WY => assert(all[49] == state),
        StateProv::AS => assert(all[50] == state),
        StateProv::DC => assert(all[51] == state),
        StateProv::FM => assert(all[52] == state),
        StateProv::MH => assert(all[53] == state),
        StateProv::MP => assert(all[54] == state),
        StateProv::PW => assert(all[55] == state),
        StateProv::PR => assert(all[56] == state),
        StateProv::VI => assert(all[57] == state),
    }
}

impl IntoOption<StateProv> for StateProv {
    open spec fn as_option(self) -> Option<StateProv> {
        Some(self)
    }

    fn into_option(self) -> (r: Option<StateProv>) {
        Some(self)
    }
}

/// The upper case form of a letter of the ASCII alphabet; any other
/// character as it is.
pub open spec fn ascii_uppercase_char(c: char) -> char {
    if 'a' <= c <= 'z' {
        ((c as u8) - 32) as char
    } else {
        c
    }
}

/// A text with each letter of the ASCII alphabet in upper case.
pub open spec fn ascii_uppercase(s: Seq<char>) -> Seq<char> {
    Seq::new(s.len(), |i: int| ascii_uppercase_char(s[i]))
}

/// The upper case form of one of the letters `a` to `z`, as a text; `None`
/// for any other character.
fn upper_case_letter(c: char) -> (r: Option<&'static str>)
    ensures
        match r {
            Some(letter) => 'a' <= c <= 'z' && letter@ == seq![ascii_uppercase_char(c)],
            None => !('a' <= c <= 'z'),
        },
{
    proof {
        reveal_strlit("A");
        reveal_strlit("B");
        reveal_strlit("C");
        reveal_strlit("D");
        reveal_strlit("E");
        reveal_strlit("F");
        reveal_strlit("G");
        reveal_strlit("H");
        reveal_strlit("I");
        reveal_strlit("J");
        reveal_strlit("K");
        reveal_strlit("L");
        reveal_strlit("M");
        reveal_strlit("N");
        reveal_strlit("O");
        reveal_strlit("P");
        reveal_strlit("Q");
        reveal_strlit("R");
        reveal_strlit("S");
        reveal_strlit("T");
        reveal_strlit("U");
        reveal_strlit("V");
        reveal_strlit("W");
        reveal_strlit("X");
        reveal_strlit("Y");
        reveal_strlit("Z");
    }
    let r =
    if c == 'a' {
        Some("A")
    } else if c == 'b' {
        Some("B")
    } else if c == 'c' {
        Some("C")
    } else if c == 'd' {
        Some("D")
    } else if c == 'e' {
        Some("E")
    } else if c == 'f' {
        Some("F")
    } else if c == 'g' {
        Some("G")
    } else if c == 'h' {
        Some("H")
    } else if c == 'i' {
        Some("I")
    } else if c == 'j' {
        Some("J")
    } else if c == 'k' {
        Some("K")
    } else if c == 'l' {
        Some("L")
    } else if c == 'm' {
        Some("M")
    } else if c == 'n' {
        Some("N")
    } else if c == 'o' {
        Some("O")
    } else if c == 'p' {
        Some("P")
    } else if c == 'q' {
        Some("Q")
    } else if c == 'r' {
        Some("R")
    } else if c == 's' {
        Some("S")
    } else if c == 't' {
        Some("T")
    } else if c == 'u' {
        Some("U")
    } else if c == 'v' {
        Some("V")
    } else if c == 'w' {
        Some("W")
    } else if c == 'x' {
        Some("X")
    } else if c == 'y' {
        Some("Y")
    } else if c == 'z' {
        Some("Z")
    } else {
        None
    };
    proof {
        if let Some(letter) = r {
            assert(letter@ =~= seq![ascii_uppercase_char(c)]);
        }
    }
    r
}

/// A text with each of the letters `a` to `z` replaced by its upper case
/// form, and every other character as it was.
pub fn to_ascii_uppercase(text: &str) -> (r: String)
    ensures
        r@ == ascii_uppercase(text@),
{
    let len = text.unicode_len();
    let mut r = String::new();
    let mut i: usize = 0;
    assert(r@ =~= ascii_uppercase(text@.take(0)));
    while i < len
        invariant
            0 <= i <= len,
            len == text@.len(),
            r@ == ascii_uppercase(text@.take(i as int)),
        decreases len - i,
    {
        let c = text.get_char(i);
        let ghost before = r@;
        match upper_case_letter(c) {
            Some(letter) => {
                r.append(letter);
            },
            None => {
                let same = text.substring_char(i, i + 1);
                assert(same@ =~= seq![c]);
                r.append(same);
            },
        }
        assert(r@ =~= before.push(ascii_uppercase_char(c)));
        assert(r@ =~= ascii_uppercase(text@.take(i + 1)));
        i = i + 1;
    }
    assert(text@.take(len as int) =~= text@);
    r
}

/// A site with soundings: a station code and what describes it.
#[derive(Debug, PartialEq, Eq)]
pub struct Site {
    /// The station code, usually three or four letters. The natural key.
    short_name: String,
    /// A longer name for people to read.
    long_name: Option<String>,
    /// Free text about the site.
    notes: Option<String>,
    /// The state or province the site lies in.
    state: Option<StateProv>,
    /// Whether the site is a mobile unit.
    is_mobile: bool,
    /// The row in the index, positive once the index knows the site.
    id: i64,
}

/// What a `Site` holds, as mathematical values.
pub struct SiteView {
    pub short_name: Seq<char>,
    pub long_name: Option<Seq<char>>,
    pub notes: Option<Seq<char>>,
    pub state: Option<StateProv>,
    pub is_mobile: bool,
    pub id: i64,
}

impl SiteView {
    /// Whether the index has given the site an identifier.
    pub open spec fn is_known(self) -> bool {
        self.id > 0
    }

    /// The same site with the descriptive fields of `other`.
    pub open spec fn described_as(self, other: SiteView) -> SiteView {
        SiteView {
            long_name: other.long_name,
            notes: other.notes,
            state: other.state,
            is_mobile: other.is_mobile,
            ..self
        }
    }
}

impl View for Site {
    type V = SiteView;

    closed spec fn view(&self) -> SiteView {
        SiteView {
            short_name: self.short_name@,
            long_name: text_of(self.long_name),
            notes: text_of(self.notes),
            state: self.state,
            is_mobile: self.is_mobile,
            id: self.id,
        }
    }
}

impl Clone for Site {
    fn clone(&self) -> (r: Self)
        ensures
            r@ == self@,
    {
        proof {
            use_type_invariant(self);
        }
        Site {
            short_name: self.short_name.clone(),
            long_name: copy_text(&self.long_name),
            notes: copy_text(&self.notes),
            state: self.state,
            is_mobile: self.is_mobile,
            id: self.id,
        }
    }
}

impl Site {
    /// Every site keeps its short name in upper case.
    #[verifier::type_invariant]
    spec fn well_formed(self) -> bool {
        ascii_uppercase(self.short_name@) == self.short_name@
    }

    /// A site with this short name, nothing else known of it, and not yet in
    /// any index. The short name is kept in upper case, so that `kmso` and
    /// `KMSO` name one site.
    pub fn new(short_name: &str) -> (r: Self)
        ensures
            r@ == (SiteView {
                short_name: ascii_uppercase(short_name@),
                long_name: None,
                notes: None,
                state: None,
                is_mobile: false,
                id: -1i64,
            }),
    {
        proof {
            ascii_uppercase_is_idempotent(short_name@);
        }
        Self {
            short_name: to_ascii_uppercase(short_name),
            long_name: None,
            notes: None,
            state: None,
            is_mobile: false,
            id: -1,
        }
    }

    /// Sets or clears the long name.
    pub fn with_long_name<T: IntoOption<String>>(self, long_name: T) -> (r: Self)
        ensures
            r@ == (SiteView { long_name: text_of(long_name.as_option()), ..self@ }),
    {
        proof {
            use_type_invariant(&self);
        }
        Self { long_name: long_name.into_option(), ..self }
    }

    /// Sets or clears the notes.
    pub fn with_notes<T: IntoOption<String>>(self, notes: T) -> (r: Self)
        ensures
            r@ == (SiteView { notes: text_of(notes.as_option()), ..self@ }),
    {
        proof {
            use_type_invariant(&self);
        }
        Self { notes: notes.into_option(), ..self }
    }

    /// Sets or clears the state or province.
    pub fn with_state_prov<T: IntoOption<StateProv>>(self, state: T) -> (r: Self)
        ensures
            r@ == (SiteView { state: state.as_option(), ..self@ }),
    {
        proof {
            use_type_invariant(&self);
        }
        Self { state: state.into_option(), ..self }
    }

    /// Says whether the site is a mobile unit.
    pub fn set_mobile(self, is_mobile: bool) -> (r: Self)
        ensures
            r@ == (SiteView { is_mobile, ..self@ }),
    {
        proof {
            use_type_invariant(&self);
        }
        Self { is_mobile, ..self }
    }

    /// The short name, which is in upper case.
    pub fn short_name(&self) -> (r: &str)
        ensures
            r@ == self@.short_name,
            ascii_uppercase(r@) == r@,
    {
        proof {
            use_type_invariant(self);
        }
        self.short_name.as_str()
    }

    /// The long name, if there is one.
    pub fn long_name(&self) -> (r: Option<&str>)
        ensures
            match r {
                Some(s) => self@.long_name == Some(s@),
                None => self@.long_name is None,
            },
    {
        match &self.long_name {
            Some(s) => Some(s.as_str()),
            None => None,
        }
    }

    /// The notes, if there are any.
    pub fn notes(&self) -> (r: Option<&str>)
        ensures
            match r {
                Some(s) => self@.notes == Some(s@),
                None => self@.notes is None,
            },
    {
        match &self.notes {
            Some(s) => Some(s.as_str()),
            None => None,
        }
    }

    /// The state or province, if it is known.
    pub fn state_prov(&self) -> (r: Option<StateProv>)
        ensures
            r == self@.state,
    {
        self.state
    }

    /// Whether the site is a mobile unit.
    pub fn is_mobile(&self) -> (r: bool)
        ensures
            r == self@.is_mobile,
    {
        self.is_mobile
    }

    /// Whether an index has given the site an identifier. Identifiers start
    /// at 1.
    pub fn is_known(&self) -> (r: bool)
        ensures
            r == self@.is_known(),
    {
        self.id > 0
    }

    /// The same as `is_known`.
    pub fn is_valid(&self) -> (r: bool)
        ensures
            r == self@.is_known(),
    {
        self.id > 0
    }

    /// The identifier, or -1 while the site is in no index.
    pub fn id(&self) -> (r: i64)
        ensures
            r == self@.id,
    {
        self.id
    }

    /// Whether the long name or the state is missing. The notes do not
    /// count: they are rarely used.
    pub fn incomplete(&self) -> (r: bool)
        ensures
            r == (self@.long_name is None || self@.state is None),
    {
        self.long_name.is_none() || self.state.is_none()
    }

    /// The same site under the identifier `id`.
    pub(crate) fn with_id(self, id: i64) -> (r: Self)
        ensures
            r@ == (SiteView { id, ..self@ }),
    {
        proof {
            use_type_invariant(&self);
        }
        Self { id, ..self }
    }

    /// The same site with the descriptive fields of `other`.
    pub(crate) fn described_as(self, other: &Site) -> (r: Self)
        ensures
            r@ == self@.described_as(other@),
    {
        proof {
            use_type_invariant(&self);
        }
        Self {
            long_name: copy_text(&other.long_name),
            notes: copy_text(&other.notes),
            state: other.state,
            is_mobile: other.is_mobile,
            ..self
        }
    }

    /// The site that a row of the index stands for. The short name is kept
    /// in upper case. A text that is not the abbreviation of a state or
    /// province leaves the site without one.
    pub fn parse_row_to_site(
        id: i64,
        short_name: String,
        long_name: Option<String>,
        state: Option<String>,
        notes: Option<String>,
        is_mobile: bool,
    ) -> (r: Self)
        ensures
            r@ == (SiteView {
                short_name: ascii_uppercase(short_name@),
                long_name: text_of(long_name),
                notes: text_of(notes),
                state: match text_of(state) {
                    Some(text) => StateProv::named(text),
                    None => None,
                },
                is_mobile,
                id,
            }),
    {
        let state = match &state {
            Some(text) => match StateProv::from_str(text.as_str()) {
                Ok(state) => Some(state),
                Err(_) => None,
            },
            None => None,
        };
        proof {
            ascii_uppercase_is_idempotent(short_name@);
        }
        Site {
            short_name: to_ascii_uppercase(short_name.as_str()),
            long_name,
            notes,
            state,
            is_mobile,
            id,
        }
    }

    /// Whether two sites have the same short name.
    pub fn same_short_name(&self, other: &Site) -> (r: bool)
        ensures
            r == (self@.short_name == other@.short_name),
    {
        self.short_name == other.short_name
    }

    /// Whether two sites hold the same values, field by field.
    pub fn same_as(&self, other: &Site) -> (r: bool)
        ensures
            r == (self@ == other@),
    {
        self.short_name == other.short_name && same_text(&self.long_name, &other.long_name)
            && same_text(&self.notes, &other.notes) && self.state == other.state
            && self.is_mobile == other.is_mobile && self.id == other.id
    }
}

/// The rows of a table of sites, as mathematical values.
pub open spec fn site_rows(sites: Seq<Site>) -> Seq<SiteView> {
    Seq::new(sites.len(), |i: int| sites[i]@)
}

/// What holds of the table of sites: the row at place `i` has the
/// identifier `i + 1`, and no two rows share a short name.
pub open spec fn sites_wf(rows: Seq<SiteView>) -> bool {
    &&& rows.len() < i64::MAX
    &&& forall|i: int| 0 <= i < rows.len() ==> (#[trigger] rows[i]).id == i + 1
    &&& forall|i: int, j: int|
        0 <= i < j < rows.len() ==> (#[trigger] rows[i]).short_name
            != (#[trigger] rows[j]).short_name
}

/// Whether a row has this short name.
pub open spec fn has_site(rows: Seq<SiteView>, short_name: Seq<char>) -> bool {
    exists|i: int| 0 <= i < rows.len() && (#[trigger] rows[i]).short_name == short_name
}

/// The place of the row with this short name.
pub open spec fn site_position(rows: Seq<SiteView>, short_name: Seq<char>) -> int {
    choose|i: int| 0 <= i < rows.len() && (#[trigger] rows[i]).short_name == short_name
}

/// The row with this short name, if there is one.
pub open spec fn find_site(rows: Seq<SiteView>, short_name: Seq<char>) -> Option<SiteView> {
    if has_site(rows, short_name) {
        Some(rows[site_position(rows, short_name)])
    } else {
        None
    }
}

/// The site that stands for `site` in the table: `site` itself if it
/// carries an identifier, else the row with its short name.
pub open spec fn validated_site(rows: Seq<SiteView>, site: SiteView) -> Option<SiteView> {
    if site.is_known() {
        Some(site)
    } else {
        find_site(rows, site.short_name)
    }
}

/// The table once `site` stands in it: unchanged where `site` carries an
/// identifier or a row has its short name, else with `site` as a new last
/// row under the next identifier.
pub open spec fn sites_with(rows: Seq<SiteView>, site: SiteView) -> Seq<SiteView> {
    if validated_site(rows, site) is Some {
        rows
    } else {
        rows.push(SiteView { id: (rows.len() + 1) as i64, ..site })
    }
}

/// The table once the row with the short name of `site` has taken the
/// descriptive fields of `site`.
pub open spec fn sites_updated(rows: Seq<SiteView>, site: SiteView) -> Seq<SiteView> {
    if has_site(rows, site.short_name) {
        let i = site_position(rows, site.short_name);
        rows.update(i, rows[i].described_as(site))
    } else {
        rows
    }
}

/// Whether the table has no room for one more row.
pub open spec fn sites_full(rows: Seq<SiteView>) -> bool {
    rows.len() + 1 >= i64::MAX
}

/// In a table that is well formed, a row with the short name is the row at
/// `site_position`.
pub proof fn lemma_site_position(rows: Seq<SiteView>, short_name: Seq<char>, i: int)
    requires
        sites_wf(rows),
        0 <= i < rows.len(),
        rows[i].short_name == short_name,
    ensures
        has_site(rows, short_name),
        site_position(rows, short_name) == i,
{
    let j = site_position(rows, short_name);
    if i < j {
        assert(rows[i].short_name != rows[j].short_name);
    }
    if j < i {
        assert(rows[j].short_name != rows[i].short_name);
    }
}

/// The place of the row with this short name, if there is one.
pub fn locate_site(sites: &Vec<Site>, short_name: &str) -> (r: Option<usize>)
    requires
        sites_wf(site_rows(sites@)),
    ensures
        match r {
            Some(i) => has_site(site_rows(sites@), short_name@) && i == site_position(
                site_rows(sites@),
                short_name@,
            ),
            None => !has_site(site_rows(sites@), short_name@),
        },
{
    let key = short_name.to_owned();
    let ghost rows = site_rows(sites@);
    let mut i: usize = 0;
    while i < sites.len()
        invariant
            0 <= i <= sites.len(),
            rows == site_rows(sites@),
            sites_wf(rows),
            key@ == short_name@,
            forall|j: int| 0 <= j < i ==> (#[trigger] rows[j]).short_name != short_name@,
        decreases sites.len() - i,
    {
        if sites[i].short_name == key {
            proof {
                assert(rows[i as int].short_name == short_name@);
                lemma_site_position(rows, short_name@, i as int);
            }
            return Some(i);
        }
        i = i + 1;
    }
    None
}

/// The row with exactly this short name, if there is one.
pub fn site_named(sites: &Vec<Site>, short_name: &str) -> (r: Option<Site>)
    requires
        sites_wf(site_rows(sites@)),
    ensures
        match r {
            Some(site) => find_site(site_rows(sites@), short_name@) == Some(site@),
            None => find_site(site_rows(sites@), short_name@) is None,
        },
{
    match locate_site(sites, short_name) {
        Some(i) => Some(sites[i].clone()),
        None => None,
    }
}

/// The row for this short name, if there is one. The short name is looked
/// for in upper case, as sites keep it.
pub fn retrieve_site(sites: &Vec<Site>, short_name: &str) -> (r: Option<Site>)
    requires
        sites_wf(site_rows(sites@)),
    ensures
        match r {
            Some(site) => find_site(site_rows(sites@), ascii_uppercase(short_name@)) == Some(
                site@,
            ),
            None => find_site(site_rows(sites@), ascii_uppercase(short_name@)) is None,
        },
{
    let key = to_ascii_uppercase(short_name);
    site_named(sites, key.as_str())
}

/// A text in upper case stays as it is when it is put into upper case
/// again: a short name that a site gives finds that site.
pub proof fn ascii_uppercase_is_idempotent(text: Seq<char>)
    ensures
        ascii_uppercase(ascii_uppercase(text)) == ascii_uppercase(text),
{
    let once = ascii_uppercase(text);
    assert forall|i: int| 0 <= i < once.len() implies ascii_uppercase_char(once[i])
        == once[i] by {
        let c = text[i];
        if 'a' <= c <= 'z' {
            assert('A' <= ascii_uppercase_char(c) <= 'Z');
        }
    }
    assert(ascii_uppercase(once) =~= once);
}

/// Adds `site` as a new last row under the next identifier, and returns it
/// as it stands in the table. `None`, and no change, if a row has the short
/// name of `site` already, or if the table is full.
pub fn insert_site(sites: &mut Vec<Site>, site: Site) -> (r: Option<Site>)
    requires
        sites_wf(site_rows(old(sites)@)),
    ensures
        sites_wf(site_rows(final(sites)@)),
        match r {
            Some(added) => {
                &&& !has_site(site_rows(old(sites)@), site@.short_name)
                &&& !sites_full(site_rows(old(sites)@))
                &&& added@ == (SiteView { id: (site_rows(old(sites)@).len() + 1) as i64, ..site@ })
                &&& site_rows(final(sites)@) == site_rows(old(sites)@).push(added@)
            },
            None => (has_site(site_rows(old(sites)@), site@.short_name) || sites_full(
                site_rows(old(sites)@),
            )) && site_rows(final(sites)@) == site_rows(old(sites)@),
        },
{
    if sites.len() as u64 >= 0x7fff_ffff_ffff_fffe {
        return None;
    }
    if locate_site(sites, site.short_name()).is_some() {
        return None;
    }
    let id = (sites.len() as u64 + 1) as i64;
    let added = site.with_id(id);
    let r = added.clone();
    let ghost before = site_rows(sites@);
    sites.push(added);
    proof {
        let after = site_rows(sites@);
        assert(after =~= before.push(r@));
        assert forall|i: int, j: int|
            0 <= i < j < after.len() implies (#[trigger] after[i]).short_name
            != (#[trigger] after[j]).short_name by {
            if j == before.len() {
                assert(before[i].short_name != site@.short_name);
            } else {
                assert(before[i].short_name != before[j].short_name);
            }
        }
    }
    Some(r)
}

/// Gives the row with the short name of `site` the descriptive fields of
/// `site`, and returns the row as it then stands. `None`, and no change, if
/// no row has that short name.
pub fn update_site(sites: &mut Vec<Site>, site: &Site) -> (r: Option<Site>)
    requires
        sites_wf(site_rows(old(sites)@)),
    ensures
        sites_wf(site_rows(final(sites)@)),
        site_rows(final(sites)@) == sites_updated(site_rows(old(sites)@), site@),
        match r {
            Some(updated) => find_site(site_rows(final(sites)@), site@.short_name) == Some(
                updated@,
            ) && has_site(site_rows(old(sites)@), site@.short_name),
            None => !has_site(site_rows(old(sites)@), site@.short_name),
        },
{
    let ghost before = site_rows(sites@);
    match locate_site(sites, site.short_name()) {
        Some(i) => {
            let updated = sites[i].clone().described_as(site);
            let r = updated.clone();
            sites.set(i, updated);
            proof {
                let after = site_rows(sites@);
                assert(after =~= before.update(i as int, before[i as int].described_as(site@)));
                assert forall|a: int, b: int| 0 <= a < b < after.len() implies (
                #[trigger] after[a]).short_name != (#[trigger] after[b]).short_name by {
                    assert(before[a].short_name != before[b].short_name);
                }
                lemma_site_position(after, site@.short_name, i as int);
            }
            Some(r)
        },
        None => None,
    }
}

/// Whether `site` can stand in the table as its next row: it carries the
/// next identifier, no row has its short name, and the table has room.
pub open spec fn site_fits(rows: Seq<SiteView>, site: SiteView) -> bool {
    site.id == rows.len() + 1 && !has_site(rows, site.short_name) && !sites_full(rows)
}

/// Puts a site that was read from a stored index back as the next row of
/// the table, if it fits there, and says whether it did. No change if it
/// does not.
pub fn restore_site(sites: &mut Vec<Site>, site: Site) -> (r: bool)
    requires
        sites_wf(site_rows(old(sites)@)),
    ensures
        sites_wf(site_rows(final(sites)@)),
        r == site_fits(site_rows(old(sites)@), site@),
        site_rows(final(sites)@) == if r {
            site_rows(old(sites)@).push(site@)
        } else {
            site_rows(old(sites)@)
        },
{
    if sites.len() as u64 >= 0x7fff_ffff_ffff_fffe {
        return false;
    }
    if site.id != (sites.len() as u64 + 1) as i64 {
        return false;
    }
    if locate_site(sites, site.short_name()).is_some() {
        return false;
    }
    let ghost before = site_rows(sites@);
    let ghost row = site@;
    sites.push(site);
    proof {
        let after = site_rows(sites@);
        assert(after =~= before.push(row));
        assert forall|i: int, j: int|
            0 <= i < j < after.len() implies (#[trigger] after[i]).short_name
            != (#[trigger] after[j]).short_name by {
            if j == before.len() {
                assert(before[i].short_name != row.short_name);
            } else {
                assert(before[i].short_name != before[j].short_name);
            }
        }
    }
    true
}

/// Updates the row with the short name of `site`, or adds `site` as a new
/// row if there is none. Returns the row as it then stands; `None`, and no
/// change, if a new row was needed and the table is full.
pub fn insert_or_update_site(sites: &mut Vec<Site>, site: Site) -> (r: Option<Site>)
    requires
        sites_wf(site_rows(old(sites)@)),
    ensures
        sites_wf(site_rows(final(sites)@)),
        has_site(site_rows(old(sites)@), site@.short_name) ==> r is Some && site_rows(
            final(sites)@,
        ) == sites_updated(site_rows(old(sites)@), site@) && find_site(
            site_rows(final(sites)@),
            site@.short_name,
        ) == Some(r->0@),
        !has_site(site_rows(old(sites)@), site@.short_name) ==> match r {
            Some(added) => {
                &&& !sites_full(site_rows(old(sites)@))
                &&& added@ == (SiteView { id: (site_rows(old(sites)@).len() + 1) as i64, ..site@ })
                &&& site_rows(final(sites)@) == site_rows(old(sites)@).push(added@)
            },
            None => sites_full(site_rows(old(sites)@)) && site_rows(final(sites)@) == site_rows(
                old(sites)@,
            ),
        },
{
    match update_site(sites, &site) {
        Some(updated) => Some(updated),
        None => insert_site(sites, site),
    }
}

/// A copy of every row, in the order of the identifiers.
pub fn all_sites(sites: &Vec<Site>) -> (r: Vec<Site>)
    ensures
        site_rows(r@) == site_rows(sites@),
{
    let mut r: Vec<Site> = Vec::new();
    let mut i: usize = 0;
    while i < sites.len()
        invariant
            0 <= i <= sites.len(),
            r.len() == i,
            forall|j: int| 0 <= j < i ==> (#[trigger] r@[j])@ == sites@[j]@,
        decreases sites.len() - i,
    {
        r.push(sites[i].clone());
        i = i + 1;
    }
    assert(site_rows(r@) =~= site_rows(sites@));
    r
}

/// Asking twice for a site to stand in the table gives the same site both
/// times, and the second time changes nothing: at most one row is added.
pub proof fn site_added_once(rows: Seq<SiteView>, first: SiteView, second: SiteView)
    requires
        sites_wf(rows),
        !sites_full(rows),
        !first.is_known(),
        !second.is_known(),
        first.short_name == second.short_name,
    ensures
        sites_wf(sites_with(rows, first)),
        sites_with(sites_with(rows, first), second) == sites_with(rows, first),
        validated_site(sites_with(rows, first), first) is Some,
        validated_site(sites_with(rows, first), second) == validated_site(
            sites_with(rows, first),
            first,
        ),
        sites_with(rows, first).len() <= rows.len() + 1,
{
    let after = sites_with(rows, first);
    if !has_site(rows, first.short_name) {
        let added = SiteView { id: (rows.len() + 1) as i64, ..first };
        assert(after == rows.push(added));
        assert(after[rows.len() as int] == added);
        assert forall|i: int, j: int|
            0 <= i < j < after.len() implies (#[trigger] after[i]).short_name
            != (#[trigger] after[j]).short_name by {
            if j == rows.len() {
                assert(rows[i].short_name != first.short_name);
            } else {
                assert(rows[i].short_name != rows[j].short_name);
            }
        }
        lemma_site_position(after, first.short_name, rows.len() as int);
    }
}

/// Updating a site that stands in the table changes the descriptive fields
/// of its row and nothing else: the row keeps its short name and its
/// identifier, every other row stays as it was, and no row comes or goes.
pub proof fn update_keeps_identity(rows: Seq<SiteView>, site: SiteView)
    requires
        sites_wf(rows),
        has_site(rows, site.short_name),
    ensures
        sites_wf(sites_updated(rows, site)),
        sites_updated(rows, site).len() == rows.len(),
        forall|i: int|
            0 <= i < rows.len() ==> (#[trigger] sites_updated(rows, site)[i]).id == rows[i].id
                && sites_updated(rows, site)[i].short_name == rows[i].short_name,
        forall|i: int|
            0 <= i < rows.len() && rows[i].short_name != site.short_name ==> #[trigger] sites_updated(
                rows,
                site,
            )[i] == rows[i],
        find_site(sites_updated(rows, site), site.short_name) == Some(
            find_site(rows, site.short_name)->0.described_as(site),
        ),
{
    let i = site_position(rows, site.short_name);
    let after = sites_updated(rows, site);
    assert forall|a: int, b: int| 0 <= a < b < after.len() implies (#[trigger] after[a]).short_name
        != (#[trigger] after[b]).short_name by {
        assert(rows[a].short_name != rows[b].short_name);
    }
    lemma_site_position(after, site.short_name, i);
}

} // verus!
