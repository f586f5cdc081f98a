use crate::error::Error;
use crate::text::same;
use crate::wasm::{read_sections, wasm_sections, Section, SectionView};
use vstd::prelude::*;
use vstd::string::StringExecFns;

verus! {

/// The character of the decimal digit `d`.
pub open spec fn digit_char(d: nat) -> char {
    if d == 0 {
        '0'
    } else if d == 1 {
        '1'
    } else if d == 2 {
        '2'
    } else if d == 3 {
        '3'
    } else if d == 4 {
        '4'
    } else if d == 5 {
        '5'
    } else if d == 6 {
        '6'
    } else if d == 7 {
        '7'
    } else if d == 8 {
        '8'
    } else {
        '9'
    }
}

/// The number `n` written in decimal digits, without leading zeros.
pub open spec fn decimal(n: nat) -> Seq<char>
    decreases n,
{
    if n < 10 {
        seq![digit_char(n)]
    } else {
        decimal(n / 10).push(digit_char(n % 10))
    }
}

fn digit_str(d: u64) -> (s: &'static str)
    requires
        d < 10,
    ensures
        s@ == seq![digit_char(d as nat)],
{
    proof {
        reveal_strlit("0");
        reveal_strlit("1");
        reveal_strlit("2");
        reveal_strlit("3");
        reveal_strlit("4");
        reveal_strlit("5");
        reveal_strlit("6");
        reveal_strlit("7");
        reveal_strlit("8");
        reveal_strlit("9");
    }
    let s = if d == 0 {
        "0"
    } else if d == 1 {
        "1"
    } else if d == 2 {
        "2"
    } else if d == 3 {
        "3"
    } else if d == 4 {
        "4"
    } else if d == 5 {
        "5"
    } else if d == 6 {
        "6"
    } else if d == 7 {
        "7"
    } else if d == 8 {
        "8"
    } else {
        "9"
    };
    assert(s@ =~= seq![digit_char(d as nat)]);
    s
}

/// The number `n` written in decimal digits.
pub fn decimal_string(n: u64) -> (s: String)
    ensures
        s@ == decimal(n as nat),
{
    let mut s = String::from_str(digit_str(n % 10));
    let mut rest = n / 10;
    while rest > 0
        invariant
            decimal(n as nat) == if rest > 0 {
                decimal(rest as nat) + s@
            } else {
                s@
            },
        decreases rest,
    {
        let digit = digit_str(rest % 10);
        let ghost shorter = s@;
        s = String::from_str(digit).concat(s.as_str());
        proof {
            let r = rest as nat;
            if r < 10 {
                assert(decimal(r) + shorter =~= s@);
            } else {
                assert(decimal(r) + shorter =~= decimal(r / 10) + s@);
            }
        }
        rest = rest / 10;
    }
    s
}

/// A semantic version.
#[derive(Debug, Clone, PartialEq, Eq)]
pub struct Version {
    pub major: u64,
    pub minor: u64,
    pub patch: u64,
    /// The pre-release tag, empty where there is none.
    pub pre: String,
    /// The build metadata, empty where there is none.
    pub build: String,
}

impl Version {
    /// The version as text: the three numbers with dots between them, then
    /// the pre-release tag after a hyphen and the build metadata after a
    /// plus, each only where it is not empty.
    pub open spec fn spec_text(&self) -> Seq<char> {
        decimal(self.major as nat) + seq!['.'] + decimal(self.minor as nat) + seq!['.'] + decimal(
            self.patch as nat,
        ) + (if self.pre@.len() > 0 {
            seq!['-'] + self.pre@
        } else {
            Seq::empty()
        }) + (if self.build@.len() > 0 {
            seq!['+'] + self.build@
        } else {
            Seq::empty()
        })
    }

    /// The version `major.minor.patch`, with no tag and no build metadata.
    pub fn new(major: u64, minor: u64, patch: u64) -> (v: Version)
        ensures
            v.major == major,
            v.minor == minor,
            v.patch == patch,
            v.pre@.len() == 0,
            v.build@.len() == 0,
    {
        Version { major, minor, patch, pre: String::new(), build: String::new() }
    }

    /// The version as text.
    pub fn text(&self) -> (s: String)
        ensures
            s@ == self.spec_text(),
    {
        proof {
            reveal_strlit(".");
            reveal_strlit("-");
            reveal_strlit("+");
            assert("."@ =~= seq!['.']);
            assert("-"@ =~= seq!['-']);
            assert("+"@ =~= seq!['+']);
        }
        let mut s = decimal_string(self.major);
        s.append(".");
        s.append(decimal_string(self.minor).as_str());
        s.append(".");
        s.append(decimal_string(self.patch).as_str());
        let ghost numbers = s@;
        if !self.pre.as_str().is_empty() {
            s.append("-");
            s.append(self.pre.as_str());
        }
        let ghost tagged = s@;
        assert(tagged =~= numbers + (if self.pre@.len() > 0 {
            seq!['-'] + self.pre@
        } else {
            Seq::empty()
        }));
        if !self.build.as_str().is_empty() {
            s.append("+");
            s.append(self.build.as_str());
        }
        assert(s@ =~= tagged + (if self.build@.len() > 0 {
            seq!['+'] + self.build@
        } else {
            Seq::empty()
        }));
        s
    }
}

/// What an extension says of itself.
#[derive(Debug, Clone, PartialEq, Eq)]
pub struct Metadata {
    name: String,
    description: String,
    version: Version,
    host_requirement: Option<String>,
}

/// The name of the custom section that holds the metadata.
pub open spec fn section_name() -> Seq<char> {
    "mtt_meta"@
}

/// The contents of the custom sections of a binary that are named as the
/// metadata section is, in their order.
pub open spec fn metadata_payloads(sections: Seq<SectionView>) -> Seq<Seq<u8>> {
    sections.filter_map(
        |s: SectionView|
            match s {
                SectionView::Custom { name, data } => if name == section_name() {
                    Some(data)
                } else {
                    None
                },
                _ => None,
            },
    )
}

/// The first of `decoded` that holds a record, if one does.
pub open spec fn first_decoded(decoded: Seq<Option<Metadata>>) -> Option<Metadata>
    decreases decoded.len(),
{
    if decoded.len() == 0 {
        None
    } else if decoded[0].is_some() {
        decoded[0]
    } else {
        first_decoded(decoded.drop_first())
    }
}

/// Whether `m` is what `decode` makes of `payloads`: it found nothing in the
/// first `taken` of them, and `m` in the next, or `m` stands for missing
/// metadata where it found nothing in any.
pub open spec fn decoded_from<F: Fn(&Vec<u8>) -> Option<Metadata>>(
    decode: F,
    payloads: Seq<Vec<u8>>,
    taken: int,
    m: Metadata,
) -> bool {
    &&& 0 <= taken <= payloads.len()
    &&& forall|j: int| 0 <= j < taken ==> decode.ensures((&#[trigger] payloads[j],), None)
    &&& if taken < payloads.len() {
        decode.ensures((&payloads[taken],), Some(m))
    } else {
        m.is_default()
    }
}

impl Metadata {
    /// Whether this is the record that stands for missing metadata: the
    /// name `unknown`, no description, version 0.0.0, and no requirement on
    /// the host.
    pub open spec fn is_default(&self) -> bool {
        &&& self.spec_name() == "unknown"@
        &&& self.spec_description().len() == 0
        &&& self.spec_version().major == 0
        &&& self.spec_version().minor == 0
        &&& self.spec_version().patch == 0
        &&& self.spec_version().pre@.len() == 0
        &&& self.spec_version().build@.len() == 0
        &&& self.spec_host_requirement().is_none()
    }

    /// The name of the extension.
    pub closed spec fn spec_name(&self) -> Seq<char> {
        self.name@
    }

    /// What the extension says it does.
    pub closed spec fn spec_description(&self) -> Seq<char> {
        self.description@
    }

    /// The version of the extension.
    pub closed spec fn spec_version(&self) -> Version {
        self.version
    }

    /// The range of host versions that the extension says it works with,
    /// as the string that the record holds.
    pub closed spec fn spec_host_range(&self) -> Option<String> {
        self.host_requirement
    }

    /// The range of host versions that the extension says it works with.
    pub closed spec fn spec_host_requirement(&self) -> Option<Seq<char>> {
        match self.host_requirement {
            Some(r) => Some(r@),
            None => None,
        }
    }

    /// The id of the extension that this record describes: its name, an
    /// `@`, and its version.
    pub open spec fn spec_id(&self) -> Seq<char> {
        self.spec_name() + seq!['@'] + self.spec_version().spec_text()
    }

    /// A record with the given name, description and version, and with the
    /// range of host versions that the extension works with, if it names
    /// one.
    pub fn new(
        name: String,
        description: String,
        version: Version,
        host_requirement: Option<String>,
    ) -> (m: Metadata)
        ensures
            m.spec_name() == name@,
            m.spec_description() == description@,
            m.spec_version() == version,
            m.spec_host_requirement() == match host_requirement {
                Some(r) => Some(r@),
                None => None,
            },
    {
        Metadata { name, description, version, host_requirement }
    }

    /// The name of the extension.
    pub fn name(&self) -> (name: &str)
        ensures
            name@ == self.spec_name(),
    {
        self.name.as_str()
    }

    /// What the extension says it does.
    pub fn description(&self) -> (description: &str)
        ensures
            description@ == self.spec_description(),
    {
        self.description.as_str()
    }

    /// The version of the extension.
    pub fn version(&self) -> (version: &Version)
        ensures
            *version == self.spec_version(),
    {
        &self.version
    }

    /// The range of host versions that the extension says it works with.
    /// The record that stands for missing metadata names none, so it is
    /// never taken to fit a host.
    pub fn host_requirement(&self) -> (requirement: Option<&String>)
        ensures
            match requirement {
                Some(r) => self.spec_host_requirement() == Some(r@),
                None => self.spec_host_requirement().is_none(),
            },
    {
        self.host_requirement.as_ref()
    }

    /// Whether the extension says that it works with the host of version
    /// `host`, where `in_range` tells whether a version lies in a range.
    /// An extension that names no range says nothing of the kind: so the
    /// record that stands for missing metadata fits no host.
    pub fn fits_host<F: Fn(&String, &Version) -> bool>(&self, host: &Version, in_range: F) -> (r:
        bool)
        requires
            forall|range: &String| in_range.requires((range, host)),
        ensures
            match self.spec_host_range() {
                Some(range) => in_range.ensures((&range, host), r),
                None => !r,
            },
            self.is_default() ==> !r,
    {
        match &self.host_requirement {
            Some(range) => in_range(range, host),
            None => false,
        }
    }

    /// The id of the extension: `name@version`.
    pub fn id(&self) -> (id: String)
        ensures
            id@ == self.spec_id(),
    {
        proof {
            reveal_strlit("@");
            assert("@"@ =~= seq!['@']);
        }
        let mut id = self.name.clone();
        id.append("@");
        id.append(self.version.text().as_str());
        id
    }

    /// The contents of the metadata sections of `bytes`, in their order.
    pub fn candidates(bytes: &[u8]) -> (out: Vec<Vec<u8>>)
        ensures
            out@.map_values(|d: Vec<u8>| d@) == metadata_payloads(wasm_sections(bytes@)),
    {
        let sections = read_sections(bytes);
        let ghost all = sections@.map_values(|s: Section| s@);
        let mut out: Vec<Vec<u8>> = Vec::new();
        for section in iter: sections
            invariant
                iter.seq().map_values(|s: Section| s@) == all,
                out@.map_values(|d: Vec<u8>| d@) == metadata_payloads(
                    all.take(iter.index() as int),
                ),
        {
            let ghost k = iter.index() as int;
            proof {
                all.lemma_filter_map_take_succ(
                    |s: SectionView|
                        match s {
                            SectionView::Custom { name, data } => if name == section_name() {
                                Some(data)
                            } else {
                                None
                            },
                            _ => None,
                        },
                    k,
                );
                assert(all[k] == iter.seq()[k]@);
            }
            let ghost before = out@;
            match section {
                Section::Custom { name, data } => {
                    if same(name.as_str(), "mtt_meta") {
                        out.push(data);
                        assert(out@.map_values(|d: Vec<u8>| d@) =~= before.map_values(
                            |d: Vec<u8>| d@,
                        ) + seq![data@]);
                    }
                },
                _ => {},
            }
        }
        proof {
            assert(all.take(all.len() as int) == all);
        }
        out
    }

    /// The first record among `decoded`, or the record that stands for
    /// missing metadata where there is none.
    pub fn first_or_default(decoded: Vec<Option<Metadata>>) -> (m: Metadata)
        ensures
            match first_decoded(decoded@) {
                Some(found) => m == found,
                None => m.is_default(),
            },
    {
        let ghost all = decoded@;
        proof {
            assert(all.skip(0) == all);
        }
        for item in iter: decoded
            invariant
                iter.seq() == all,
                first_decoded(all) == first_decoded(all.skip(iter.index() as int)),
        {
            let ghost k = iter.index() as int;
            proof {
                assert(all.skip(k)[0] == all[k]);
                assert(all.skip(k).drop_first() == all.skip(k + 1));
            }
            match item {
                Some(m) => {
                    return m;
                },
                None => {},
            }
        }
        proof {
            assert(all.skip(all.len() as int).len() == 0);
        }
        Metadata::default()
    }

    /// The metadata of the binary `bytes`: what `decode` makes of the first
    /// metadata section that it can decode. A binary without such a section
    /// gets the record that stands for missing metadata. This never fails.
    pub fn parse<F: Fn(&Vec<u8>) -> Option<Metadata>>(bytes: &[u8], decode: F) -> (r: Result<
        Metadata,
        Error,
    >)
        requires
            forall|payload: &Vec<u8>| decode.requires((payload,)),
        ensures
            r matches Ok(m) && exists|payloads: Seq<Vec<u8>>, taken: int|
                #![trigger decoded_from(decode, payloads, taken, m)]
                payloads.map_values(|d: Vec<u8>| d@) == metadata_payloads(wasm_sections(bytes@))
                    && decoded_from(decode, payloads, taken, m),
    {
        let payloads = Metadata::candidates(bytes);
        let mut i: usize = 0;
        while i < payloads.len()
            invariant
                i <= payloads.len(),
                payloads@.map_values(|d: Vec<u8>| d@) == metadata_payloads(wasm_sections(bytes@)),
                forall|payload: &Vec<u8>| decode.requires((payload,)),
                forall|j: int| 0 <= j < i ==> decode.ensures((&#[trigger] payloads@[j],), None),
            decreases payloads.len() - i,
        {
            match decode(&payloads[i]) {
                Some(m) => {
                    assert(decoded_from(decode, payloads@, i as int, m));
                    return Ok(m);
                },
                None => {},
            }
            i += 1;
        }
        let m = Metadata::default();
        assert(decoded_from(decode, payloads@, payloads@.len() as int, m));
        Ok(m)
    }
}

impl Default for Metadata {
    /// The record that stands for missing metadata.
    fn default() -> (m: Metadata)
        ensures
            m.is_default(),
    {
        proof {
            reveal_strlit("");
        }
        Metadata {
            name: String::from_str("unknown"),
            description: String::from_str(""),
            version: Version::new(0, 0, 0),
            host_requirement: None,
        }
    }
}

} // verus!
