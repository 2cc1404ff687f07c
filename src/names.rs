use vstd::prelude::*;
use crate::typed_value::FromText;

verus! {

/// What `fqdn::FQDN` makes of a text: the name as it displays it, or the
/// reason for refusing the text.
pub uninterp spec fn fqdn_outcome(s: Seq<char>) -> Result<Seq<char>, Seq<char>>;

/// Whether `fqdn` reads the text `t` back as itself.
pub open spec fn reads_back(t: Seq<char>) -> bool {
    fqdn_outcome(t) == Ok::<Seq<char>, Seq<char>>(t)
}

pub open spec fn text_result(r: Result<String, String>) -> Result<Seq<char>, Seq<char>> {
    match r {
        Ok(t) => Ok(t@),
        Err(e) => Err(e@),
    }
}

/// Relies on `fqdn::FQDN::from_str` to check and read a domain name, on the
/// `Display` of `fqdn::FQDN` for its text, and on the `Display` of
/// `fqdn::Error` for the reason of a refusal. The displayed text is the
/// lower-cased labels joined by dots, which `from_str` reads back unchanged.
#[verifier::external_body]
fn fqdn_parse(s: &str) -> (r: Result<String, String>)
    ensures
        fqdn_outcome(s@) == text_result(r),
        r matches Ok(t) ==> reads_back(t@),
{
    <fqdn::FQDN as std::str::FromStr>::from_str(s).map(|f| f.to_string()).map_err(|e| e.to_string())
}

/// A fully qualified domain name, kept as the text that `fqdn` displays for it.
#[derive(Debug)]
pub struct FQDN {
    text: String,
}

impl FQDN {
    /// The text is one that `fqdn` reads back as itself.
    #[verifier::type_invariant]
    spec fn text_reads_back(self) -> bool {
        reads_back(self.text@)
    }

    /// The name's text, which `fqdn` reads back as this name.
    pub fn text_of(&self) -> (r: &str)
        ensures
            r@ == self@,
            reads_back(self@),
    {
        proof {
            use_type_invariant(self);
        }
        self.text.as_str()
    }
}

impl Clone for FQDN {
    fn clone(&self) -> Self {
        proof {
            use_type_invariant(self);
        }
        FQDN { text: self.text.clone() }
    }
}

impl View for FQDN {
    type V = Seq<char>;

    closed spec fn view(&self) -> Seq<char> {
        self.text@
    }
}

impl FQDN {
    /// The name as text.
    pub fn to_string(&self) -> (r: String)
        ensures
            r@ == self@,
    {
        self.text.clone()
    }

    /// The name as text.
    pub fn as_str(&self) -> (r: &str)
        ensures
            r@ == self@,
    {
        self.text.as_str()
    }
}

impl FromText for FQDN {
    open spec fn spec_path() -> Seq<char> {
        "fqdn::FQDN"@
    }

    fn path() -> (r: String) {
        String::from_str("fqdn::FQDN")
    }

    open spec fn accepts(s: Seq<char>) -> bool {
        fqdn_outcome(s) is Ok
    }

    open spec fn parsed_from(s: Seq<char>, v: FQDN) -> bool {
        fqdn_outcome(s) == Ok::<Seq<char>, Seq<char>>(v@)
    }

    open spec fn refusal(s: Seq<char>) -> Seq<char> {
        match fqdn_outcome(s) {
            Err(e) => e,
            Ok(_) => Seq::empty(),
        }
    }

    fn from_text(s: &str) -> (r: Result<FQDN, String>) {
        match fqdn_parse(s) {
            Ok(t) => Ok(FQDN { text: t }),
            Err(e) => Err(e),
        }
    }
}

} // verus!
