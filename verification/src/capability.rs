//! Client capabilities and their one-byte wire codes.
use vstd::prelude::*;

verus! {

/// A unit of client output the registry knows about.
#[derive(Clone, Copy, Debug, PartialEq, Eq, Structural)]
pub enum Capability {
    Sound,
    Text,
    Image,
    WakeWordSync,
    WakeWordAudio,
    Log,
    DynamicNLU,
}

/// The one-byte wire code of a capability. Only codes 0 through 6 exist;
/// the constructor keeps it so.
#[derive(Clone, Copy, Debug, PartialEq, Eq, Structural)]
pub struct CapabilityCode(u8);

impl Capability {
    /// The code this capability is written as.
    pub open spec fn spec_code(self) -> u8 {
        match self {
            Capability::Sound => 0,
            Capability::Text => 1,
            Capability::Image => 2,
            Capability::WakeWordSync => 3,
            Capability::WakeWordAudio => 4,
            Capability::Log => 5,
            Capability::DynamicNLU => 6,
        }
    }

    /// The capability a code below 7 stands for.
    pub open spec fn spec_of_code(code: u8) -> Capability {
        if code == 0 {
            Capability::Sound
        } else if code == 1 {
            Capability::Text
        } else if code == 2 {
            Capability::Image
        } else if code == 3 {
            Capability::WakeWordSync
        } else if code == 4 {
            Capability::WakeWordAudio
        } else if code == 5 {
            Capability::Log
        } else {
            Capability::DynamicNLU
        }
    }
}

impl CapabilityCode {
    /// The numeric value of the code.
    pub closed spec fn spec_value(self) -> u8 {
        self.0
    }

    /// A code is well formed when it is one of the seven defined ones.
    pub open spec fn wf(self) -> bool {
        self.spec_value() <= 6
    }

    /// The code a capability is written as.
    pub closed spec fn from_capability(c: Capability) -> CapabilityCode {
        CapabilityCode(c.spec_code())
    }

    /// What the code written for a capability is worth as a number.
    pub proof fn lemma_from_capability(c: Capability)
        ensures
            CapabilityCode::from_capability(c).spec_value() == c.spec_code(),
    {
    }

    /// The numeric value of the code.
    pub fn to_u8(&self) -> (r: u8)
        ensures
            r == self.spec_value(),
    {
        self.0
    }
}

impl From<Capability> for CapabilityCode {
    /// Every capability has exactly its own code.
    fn from(capability: Capability) -> (r: CapabilityCode) {
        match capability {
            Capability::Sound => CapabilityCode(0),
            Capability::Text => CapabilityCode(1),
            Capability::Image => CapabilityCode(2),
            Capability::WakeWordSync => CapabilityCode(3),
            Capability::WakeWordAudio => CapabilityCode(4),
            Capability::Log => CapabilityCode(5),
            Capability::DynamicNLU => CapabilityCode(6),
        }
    }
}

impl vstd::std_specs::convert::FromSpecImpl<Capability> for CapabilityCode {
    open spec fn obeys_from_spec() -> bool {
        true
    }

    open spec fn from_spec(capability: Capability) -> CapabilityCode {
        CapabilityCode::from_capability(capability)
    }
}

impl From<CapabilityCode> for Capability {
    /// Codes constructed by this crate are all below 7, so each maps back
    /// to its capability.
    fn from(capability: CapabilityCode) -> (r: Capability) {
        match capability.0 {
            0 => Capability::Sound,
            1 => Capability::Text,
            2 => Capability::Image,
            3 => Capability::WakeWordSync,
            4 => Capability::WakeWordAudio,
            5 => Capability::Log,
            _ => Capability::DynamicNLU,
        }
    }
}

impl vstd::std_specs::convert::FromSpecImpl<CapabilityCode> for Capability {
    open spec fn obeys_from_spec() -> bool {
        true
    }

    open spec fn from_spec(capability: CapabilityCode) -> Capability {
        Capability::spec_of_code(capability.spec_value())
    }
}

/// The code of a capability converts back to the same capability: the two
/// conversions are inverses.
pub proof fn lemma_capability_code_round_trip(c: Capability)
    ensures
        Capability::spec_of_code(CapabilityCode::from_capability(c).spec_value()) == c,
        CapabilityCode::from_capability(c).wf(),
{
}

/// What lower-casing a string yields; the name is pinned down only by the
/// trusted item below.
pub uninterp spec fn lower_of(s: Seq<char>) -> Seq<char>;

/// Relies on str::to_lowercase: the result depends on the characters
/// alone.
#[verifier::external_body]
fn lowercase(s: &str) -> (r: String)
    ensures
        r@ == lower_of(s@),
{
    s.to_lowercase()
}

/// Parses a capability from its name, case-insensitively: the name is
/// lower-cased, then matched. An unknown name maps to `None` by design —
/// this library's verified functions do not fail — where the interface it
/// mirrors treated an unknown name as a fatal error.
pub fn capability_from_name(name: &str) -> (r: Option<Capability>)
    ensures
        lower_of(name@) == "sound"@ ==> r == Some(Capability::Sound),
        lower_of(name@) == "text"@ ==> r == Some(Capability::Text),
        lower_of(name@) == "image"@ ==> r == Some(Capability::Image),
        lower_of(name@) == "wakewordsync"@ ==> r == Some(Capability::WakeWordSync),
        lower_of(name@) == "wakewordaudio"@ ==> r == Some(Capability::WakeWordAudio),
        lower_of(name@) == "log"@ ==> r == Some(Capability::Log),
        lower_of(name@) == "dynamicnlu"@ ==> r == Some(Capability::DynamicNLU),
        r is None <==> lower_of(name@) != "sound"@ && lower_of(name@) != "text"@ && lower_of(name@)
            != "image"@ && lower_of(name@) != "wakewordsync"@ && lower_of(name@)
            != "wakewordaudio"@ && lower_of(name@) != "log"@ && lower_of(name@) != "dynamicnlu"@,
{
    let low = lowercase(name);
    capability_from_folded(low.as_str())
}

/// Matches an already folded (lower-case) name against the seven defined
/// capability names.
pub fn capability_from_folded(name: &str) -> (r: Option<Capability>)
    ensures
        name@ == "sound"@ ==> r == Some(Capability::Sound),
        name@ == "text"@ ==> r == Some(Capability::Text),
        name@ == "image"@ ==> r == Some(Capability::Image),
        name@ == "wakewordsync"@ ==> r == Some(Capability::WakeWordSync),
        name@ == "wakewordaudio"@ ==> r == Some(Capability::WakeWordAudio),
        name@ == "log"@ ==> r == Some(Capability::Log),
        name@ == "dynamicnlu"@ ==> r == Some(Capability::DynamicNLU),
        r is None <==> name@ != "sound"@ && name@ != "text"@ && name@ != "image"@ && name@
            != "wakewordsync"@ && name@ != "wakewordaudio"@ && name@ != "log"@ && name@
            != "dynamicnlu"@,
{
    proof {
        reveal_strlit("sound");
        reveal_strlit("text");
        reveal_strlit("image");
        reveal_strlit("wakewordsync");
        reveal_strlit("wakewordaudio");
        reveal_strlit("log");
        reveal_strlit("dynamicnlu");
        assert(("sound"@).len() == 5);
        assert(("text"@).len() == 4);
        assert(("image"@).len() == 5);
        assert(("wakewordsync"@).len() == 12);
        assert(("wakewordaudio"@).len() == 13);
        assert(("log"@).len() == 3);
        assert(("dynamicnlu"@).len() == 10);
        assert(("sound"@)[0] == 's' && ("image"@)[0] == 'i');
    }
    let n = String::from_str(name);
    if n == String::from_str("sound") {
        Some(Capability::Sound)
    } else if n == String::from_str("text") {
        Some(Capability::Text)
    } else if n == String::from_str("image") {
        Some(Capability::Image)
    } else if n == String::from_str("wakewordsync") {
        Some(Capability::WakeWordSync)
    } else if n == String::from_str("wakewordaudio") {
        Some(Capability::WakeWordAudio)
    } else if n == String::from_str("log") {
        Some(Capability::Log)
    } else if n == String::from_str("dynamicnlu") {
        Some(Capability::DynamicNLU)
    } else {
        None
    }
}

} // verus!
