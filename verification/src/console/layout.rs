//! Standard channel layouts: which index is left, right, centre and so on, not just a count.

use vstd::prelude::*;
use vstd::string::*;

use crate::json::{fields, whole, Doc, Json};
use crate::text::{dec, decimal, same};

verus! {

/// The role of one channel.
#[derive(Clone, Copy, Debug, PartialEq, Eq, Structural)]
pub enum ChannelRole {
    M,
    L,
    R,
    C,
    Lfe,
    Ls,
    Rs,
    Lss,
    Rss,
    Lrs,
    Rrs,
    Ltf,
    Rtf,
    Ltb,
    Rtb,
}

impl ChannelRole {
    /// The SMPTE ST 428-12 abbreviation of a role.
    pub open spec fn short(self) -> Seq<char> {
        match self {
            ChannelRole::M => "M"@,
            ChannelRole::L => "L"@,
            ChannelRole::R => "R"@,
            ChannelRole::C => "C"@,
            ChannelRole::Lfe => "LFE"@,
            ChannelRole::Ls => "Ls"@,
            ChannelRole::Rs => "Rs"@,
            ChannelRole::Lss => "Lss"@,
            ChannelRole::Rss => "Rss"@,
            ChannelRole::Lrs => "Lrs"@,
            ChannelRole::Rrs => "Rrs"@,
            ChannelRole::Ltf => "Ltf"@,
            ChannelRole::Rtf => "Rtf"@,
            ChannelRole::Ltb => "Ltb"@,
            ChannelRole::Rtb => "Rtb"@,
        }
    }

    /// The SMPTE ST 428-12 abbreviation.
    pub fn short_name(&self) -> (r: &'static str)
        ensures
            r@ == self.short(),
    {
        match self {
            ChannelRole::M => "M",
            ChannelRole::L => "L",
            ChannelRole::R => "R",
            ChannelRole::C => "C",
            ChannelRole::Lfe => "LFE",
            ChannelRole::Ls => "Ls",
            ChannelRole::Rs => "Rs",
            ChannelRole::Lss => "Lss",
            ChannelRole::Rss => "Rss",
            ChannelRole::Lrs => "Lrs",
            ChannelRole::Rrs => "Rrs",
            ChannelRole::Ltf => "Ltf",
            ChannelRole::Rtf => "Rtf",
            ChannelRole::Ltb => "Ltb",
            ChannelRole::Rtb => "Rtb",
        }
    }

    /// The speaker label of the ADM common definitions: the abbreviation behind `RC_`.
    pub fn adm_speaker_label(&self) -> (r: &'static str)
        ensures
            r@ == "RC_"@ + self.short(),
    {
        proof {
            reveal_strlit("RC_");
            reveal_strlit("M");
            reveal_strlit("L");
            reveal_strlit("R");
            reveal_strlit("C");
            reveal_strlit("LFE");
            reveal_strlit("Ls");
            reveal_strlit("Rs");
            reveal_strlit("Lss");
            reveal_strlit("Rss");
            reveal_strlit("Lrs");
            reveal_strlit("Rrs");
            reveal_strlit("Ltf");
            reveal_strlit("Rtf");
            reveal_strlit("Ltb");
            reveal_strlit("Rtb");
            reveal_strlit("RC_M");
            reveal_strlit("RC_L");
            reveal_strlit("RC_R");
            reveal_strlit("RC_C");
            reveal_strlit("RC_LFE");
            reveal_strlit("RC_Ls");
            reveal_strlit("RC_Rs");
            reveal_strlit("RC_Lss");
            reveal_strlit("RC_Rss");
            reveal_strlit("RC_Lrs");
            reveal_strlit("RC_Rrs");
            reveal_strlit("RC_Ltf");
            reveal_strlit("RC_Rtf");
            reveal_strlit("RC_Ltb");
            reveal_strlit("RC_Rtb");
        }
        let r = match self {
            ChannelRole::M => "RC_M",
            ChannelRole::L => "RC_L",
            ChannelRole::R => "RC_R",
            ChannelRole::C => "RC_C",
            ChannelRole::Lfe => "RC_LFE",
            ChannelRole::Ls => "RC_Ls",
            ChannelRole::Rs => "RC_Rs",
            ChannelRole::Lss => "RC_Lss",
            ChannelRole::Rss => "RC_Rss",
            ChannelRole::Lrs => "RC_Lrs",
            ChannelRole::Rrs => "RC_Rrs",
            ChannelRole::Ltf => "RC_Ltf",
            ChannelRole::Rtf => "RC_Rtf",
            ChannelRole::Ltb => "RC_Ltb",
            ChannelRole::Rtb => "RC_Rtb",
        };
        assert(r@ =~= "RC_"@ + self.short());
        r
    }
}

/// A layout of channels.
#[derive(Clone, Copy, Debug, PartialEq, Eq, Structural, Hash)]
pub enum ChannelLayout {
    Mono,
    Stereo,
    Quad,
    Surround5_1,
    Surround7_1,
    Surround5_1_4,
    /// Just a count: no roles.
    Discrete(u32),
}

impl ChannelLayout {
    /// The roles of the channels, in their order.
    pub open spec fn role_list(self) -> Seq<ChannelRole> {
        match self {
            ChannelLayout::Mono => seq![ChannelRole::M],
            ChannelLayout::Stereo => seq![ChannelRole::L, ChannelRole::R],
            ChannelLayout::Quad => seq![
                ChannelRole::L,
                ChannelRole::R,
                ChannelRole::Ls,
                ChannelRole::Rs,
            ],
            ChannelLayout::Surround5_1 => seq![
                ChannelRole::L,
                ChannelRole::R,
                ChannelRole::C,
                ChannelRole::Lfe,
                ChannelRole::Ls,
                ChannelRole::Rs,
            ],
            ChannelLayout::Surround7_1 => seq![
                ChannelRole::L,
                ChannelRole::R,
                ChannelRole::C,
                ChannelRole::Lfe,
                ChannelRole::Lss,
                ChannelRole::Rss,
                ChannelRole::Lrs,
                ChannelRole::Rrs,
            ],
            ChannelLayout::Surround5_1_4 => seq![
                ChannelRole::L,
                ChannelRole::R,
                ChannelRole::C,
                ChannelRole::Lfe,
                ChannelRole::Ls,
                ChannelRole::Rs,
                ChannelRole::Ltf,
                ChannelRole::Rtf,
                ChannelRole::Ltb,
                ChannelRole::Rtb,
            ],
            ChannelLayout::Discrete(_) => Seq::empty(),
        }
    }

    /// The name of a layout, as errors show it.
    pub open spec fn name(self) -> Seq<char> {
        match self {
            ChannelLayout::Mono => "Mono"@,
            ChannelLayout::Stereo => "Stereo"@,
            ChannelLayout::Quad => "Quad"@,
            ChannelLayout::Surround5_1 => "Surround5_1"@,
            ChannelLayout::Surround7_1 => "Surround7_1"@,
            ChannelLayout::Surround5_1_4 => "Surround5_1_4"@,
            ChannelLayout::Discrete(n) => "Discrete("@ + dec(n as nat) + ")"@,
        }
    }

    fn debug_name(&self) -> (r: String)
        ensures
            r@ == self.name(),
    {
        match self {
            ChannelLayout::Mono => "Mono".to_owned(),
            ChannelLayout::Stereo => "Stereo".to_owned(),
            ChannelLayout::Quad => "Quad".to_owned(),
            ChannelLayout::Surround5_1 => "Surround5_1".to_owned(),
            ChannelLayout::Surround7_1 => "Surround7_1".to_owned(),
            ChannelLayout::Surround5_1_4 => "Surround5_1_4".to_owned(),
            ChannelLayout::Discrete(n) => {
                let mut s = "Discrete(".to_owned();
                s.append(decimal(*n as u64).as_str());
                s.append(")");
                s
            },
        }
    }

    /// How many roles the layout has: none for a discrete one.
    pub fn channel_count(&self) -> (r: u32)
        ensures
            r == self.role_list().len(),
    {
        self.roles().len() as u32
    }

    /// The roles of the channels, in their order.
    pub fn roles(&self) -> (r: Vec<ChannelRole>)
        ensures
            r@ == self.role_list(),
            r@.len() <= 10,
    {
        let r: Vec<ChannelRole> = match self {
            ChannelLayout::Mono => vec![ChannelRole::M],
            ChannelLayout::Stereo => vec![ChannelRole::L, ChannelRole::R],
            ChannelLayout::Quad => vec![
                ChannelRole::L,
                ChannelRole::R,
                ChannelRole::Ls,
                ChannelRole::Rs,
            ],
            ChannelLayout::Surround5_1 => vec![
                ChannelRole::L,
                ChannelRole::R,
                ChannelRole::C,
                ChannelRole::Lfe,
                ChannelRole::Ls,
                ChannelRole::Rs,
            ],
            ChannelLayout::Surround7_1 => vec![
                ChannelRole::L,
                ChannelRole::R,
                ChannelRole::C,
                ChannelRole::Lfe,
                ChannelRole::Lss,
                ChannelRole::Rss,
                ChannelRole::Lrs,
                ChannelRole::Rrs,
            ],
            ChannelLayout::Surround5_1_4 => vec![
                ChannelRole::L,
                ChannelRole::R,
                ChannelRole::C,
                ChannelRole::Lfe,
                ChannelRole::Ls,
                ChannelRole::Rs,
                ChannelRole::Ltf,
                ChannelRole::Rtf,
                ChannelRole::Ltb,
                ChannelRole::Rtb,
            ],
            ChannelLayout::Discrete(_) => Vec::new(),
        };
        assert(r@ =~= self.role_list());
        r
    }

    /// The role of a channel, where the layout has one for it.
    pub fn role_at(&self, index: usize) -> (r: Option<ChannelRole>)
        ensures
            r == (if index < self.role_list().len() {
                Some(self.role_list()[index as int])
            } else {
                None
            }),
    {
        let roles = self.roles();
        if index < roles.len() {
            Some(roles[index])
        } else {
            None
        }
    }
}

/// The channel count that a count and a layout together give, or why they contradict each other.
pub open spec fn resolved_channels(
    context: Seq<char>,
    channels: Option<u32>,
    layout: Option<ChannelLayout>,
) -> Result<Option<u32>, Seq<char>> {
    match layout {
        None => Ok(channels),
        Some(l) => {
            let n = l.role_list().len();
            if n == 0 {
                Ok(channels)
            } else {
                match channels {
                    Some(c) => if c != n {
                        Err(
                            context + ": layout "@ + l.name() + " implies "@ + dec(n)
                                + " channel(s) but channels is explicitly set to "@ + dec(c as nat)
                                + " -- remove one or make them agree"@,
                        )
                    } else {
                        Ok(Some(c))
                    },
                    None => Ok(Some(n as u32)),
                }
            }
        },
    }
}

/// The channel count of a resource: that of its layout, where it has one with roles; an explicit
/// count must agree with it.
pub fn resolve_channels(context: &str, channels: Option<u32>, layout: Option<ChannelLayout>) -> (r:
    Result<Option<u32>, String>)
    ensures
        match r {
            Ok(c) => resolved_channels(context@, channels, layout) == Ok::<Option<u32>, Seq<char>>(
                c,
            ),
            Err(e) => resolved_channels(context@, channels, layout) == Err::<
                Option<u32>,
                Seq<char>,
            >(e@),
        },
{
    let layout = match layout {
        Some(l) => l,
        None => {
            return Ok(channels);
        },
    };
    let layout_count: u32 = layout.channel_count();
    if layout_count == 0 {
        return Ok(channels);
    }
    if let Some(c) = channels {
        if c != layout_count {
            let mut s = context.to_owned();
            s.append(": layout ");
            s.append(layout.debug_name().as_str());
            s.append(" implies ");
            s.append(decimal(layout_count as u64).as_str());
            s.append(" channel(s) but channels is explicitly set to ");
            s.append(decimal(c as u64).as_str());
            s.append(" -- remove one or make them agree");
            return Err(s);
        }
    }
    Ok(Some(layout_count))
}

/// The stream sizes of the ST 2110-30 conformance levels.
pub open spec fn standard_sizes() -> Set<u32> {
    set![1u32, 2u32, 8u32, 16u32, 64u32]
}

/// Whether a count is one of the standard stream sizes.
pub fn is_standard_stream_size(n: u32) -> (r: bool)
    ensures
        r == standard_sizes().contains(n),
{
    n == 1 || n == 2 || n == 8 || n == 16 || n == 64
}

/// Whether an ST 2110-30 stream can have a channel count.
pub fn is_valid_st2110_30_channel_count(n: u32) -> (r: bool)
    ensures
        r == (1 <= n <= 64),
{
    1 <= n && n <= 64
}

/// Every standard stream size is one that a stream can have.
pub proof fn law_standard_sizes_are_valid(n: u32)
    requires
        standard_sizes().contains(n),
    ensures
        1 <= n <= 64,
{
}

/// Wherever a count was resolved under a layout with roles, there is a role for each of the
/// channels and for no other.
pub proof fn law_resolved_channels_have_roles(
    context: Seq<char>,
    channels: Option<u32>,
    layout: ChannelLayout,
)
    requires
        layout.role_list().len() > 0,
        resolved_channels(context, channels, Some(layout)) is Ok,
    ensures
        resolved_channels(context, channels, Some(layout))->Ok_0 == Some(
            layout.role_list().len() as u32,
        ),
        channels matches Some(c) ==> c == layout.role_list().len(),
{
}

/// The name that a document tells a value by where it needs no more: the text, or the only key of an
/// object with null under it.
pub open spec fn bare_name(d: Doc) -> Option<Seq<char>> {
    match d {
        Doc::Text(s) => Some(s),
        Doc::Object(es) => if es.len() == 1 && es[0].1 is Null {
            Some(es[0].0)
        } else {
            None
        },
        _ => None,
    }
}

fn read_bare_name(v: &Json) -> (r: Option<&str>)
    ensures
        match r {
            Some(s) => bare_name(v@) == Some(s@),
            None => bare_name(v@) is None,
        },
{
    if let Some(s) = v.as_str() {
        return Some(s);
    }
    match v.as_object() {
        Some(es) => {
            assert(fields(es@).len() == es@.len());
            if es.len() == 1 && es[0].1.is_null() {
                Some(es[0].0.as_str())
            } else {
                None
            }
        },
        None => None,
    }
}

/// The role that a name in a document denotes.
pub open spec fn named_role(s: Seq<char>) -> Option<ChannelRole> {
    if s == "m"@ {
        Some(ChannelRole::M)
    } else if s == "l"@ {
        Some(ChannelRole::L)
    } else if s == "r"@ {
        Some(ChannelRole::R)
    } else if s == "c"@ {
        Some(ChannelRole::C)
    } else if s == "lfe"@ {
        Some(ChannelRole::Lfe)
    } else if s == "ls"@ {
        Some(ChannelRole::Ls)
    } else if s == "rs"@ {
        Some(ChannelRole::Rs)
    } else if s == "lss"@ {
        Some(ChannelRole::Lss)
    } else if s == "rss"@ {
        Some(ChannelRole::Rss)
    } else if s == "lrs"@ {
        Some(ChannelRole::Lrs)
    } else if s == "rrs"@ {
        Some(ChannelRole::Rrs)
    } else if s == "ltf"@ {
        Some(ChannelRole::Ltf)
    } else if s == "rtf"@ {
        Some(ChannelRole::Rtf)
    } else if s == "ltb"@ {
        Some(ChannelRole::Ltb)
    } else if s == "rtb"@ {
        Some(ChannelRole::Rtb)
    } else {
        None
    }
}

fn role_named(s: &str) -> (r: Option<ChannelRole>)
    ensures
        r == named_role(s@),
{
    if same(s, "m") {
        Some(ChannelRole::M)
    } else if same(s, "l") {
        Some(ChannelRole::L)
    } else if same(s, "r") {
        Some(ChannelRole::R)
    } else if same(s, "c") {
        Some(ChannelRole::C)
    } else if same(s, "lfe") {
        Some(ChannelRole::Lfe)
    } else if same(s, "ls") {
        Some(ChannelRole::Ls)
    } else if same(s, "rs") {
        Some(ChannelRole::Rs)
    } else if same(s, "lss") {
        Some(ChannelRole::Lss)
    } else if same(s, "rss") {
        Some(ChannelRole::Rss)
    } else if same(s, "lrs") {
        Some(ChannelRole::Lrs)
    } else if same(s, "rrs") {
        Some(ChannelRole::Rrs)
    } else if same(s, "ltf") {
        Some(ChannelRole::Ltf)
    } else if same(s, "rtf") {
        Some(ChannelRole::Rtf)
    } else if same(s, "ltb") {
        Some(ChannelRole::Ltb)
    } else if same(s, "rtb") {
        Some(ChannelRole::Rtb)
    } else {
        None
    }
}

/// The role that a document denotes.
pub open spec fn parsed_role(d: Doc) -> Option<ChannelRole> {
    match bare_name(d) {
        Some(s) => named_role(s),
        None => None,
    }
}

impl ChannelRole {
    /// The name of a role in documents.
    pub open spec fn key(self) -> Seq<char> {
        match self {
            ChannelRole::M => "m"@,
            ChannelRole::L => "l"@,
            ChannelRole::R => "r"@,
            ChannelRole::C => "c"@,
            ChannelRole::Lfe => "lfe"@,
            ChannelRole::Ls => "ls"@,
            ChannelRole::Rs => "rs"@,
            ChannelRole::Lss => "lss"@,
            ChannelRole::Rss => "rss"@,
            ChannelRole::Lrs => "lrs"@,
            ChannelRole::Rrs => "rrs"@,
            ChannelRole::Ltf => "ltf"@,
            ChannelRole::Rtf => "rtf"@,
            ChannelRole::Ltb => "ltb"@,
            ChannelRole::Rtb => "rtb"@,
        }
    }

    /// The role as a document holds it: its name in lower case.
    pub fn to_json(&self) -> (r: Json)
        ensures
            r@ == Doc::Text(self.key()),
    {
        let name = match self {
            ChannelRole::M => "m",
            ChannelRole::L => "l",
            ChannelRole::R => "r",
            ChannelRole::C => "c",
            ChannelRole::Lfe => "lfe",
            ChannelRole::Ls => "ls",
            ChannelRole::Rs => "rs",
            ChannelRole::Lss => "lss",
            ChannelRole::Rss => "rss",
            ChannelRole::Lrs => "lrs",
            ChannelRole::Rrs => "rrs",
            ChannelRole::Ltf => "ltf",
            ChannelRole::Rtf => "rtf",
            ChannelRole::Ltb => "ltb",
            ChannelRole::Rtb => "rtb",
        };
        Json::text(name)
    }

    /// Reads a role from a document.
    pub fn parse(v: &Json) -> (r: Option<ChannelRole>)
        ensures
            r == parsed_role(v@),
    {
        match read_bare_name(v) {
            Some(s) => role_named(s),
            None => None,
        }
    }
}

/// A role that was written is read as the same role.
pub proof fn law_role_reads_back(role: ChannelRole)
    ensures
        parsed_role(Doc::Text(role.key())) == Some(role),
{
    reveal_strlit("m");
    reveal_strlit("l");
    reveal_strlit("r");
    reveal_strlit("c");
    reveal_strlit("lfe");
    reveal_strlit("ls");
    reveal_strlit("rs");
    reveal_strlit("lss");
    reveal_strlit("rss");
    reveal_strlit("lrs");
    reveal_strlit("rrs");
    reveal_strlit("ltf");
    reveal_strlit("rtf");
    reveal_strlit("ltb");
    reveal_strlit("rtb");
    assert("m"@.len() == 1 && "l"@.len() == 1 && "r"@.len() == 1 && "c"@.len() == 1);
    assert("m"@[0] == 'm' && "l"@[0] == 'l' && "r"@[0] == 'r' && "c"@[0] == 'c');
    assert("ls"@.len() == 2 && "rs"@.len() == 2);
    assert("ls"@[0] == 'l' && "rs"@[0] == 'r');
    assert("lfe"@.len() == 3);
    assert("lfe"@[0] == 'l' && "lfe"@[1] == 'f' && "lfe"@[2] == 'e');
    assert("lss"@.len() == 3);
    assert("lss"@[0] == 'l' && "lss"@[1] == 's' && "lss"@[2] == 's');
    assert("rss"@.len() == 3);
    assert("rss"@[0] == 'r' && "rss"@[1] == 's' && "rss"@[2] == 's');
    assert("lrs"@.len() == 3);
    assert("lrs"@[0] == 'l' && "lrs"@[1] == 'r' && "lrs"@[2] == 's');
    assert("rrs"@.len() == 3);
    assert("rrs"@[0] == 'r' && "rrs"@[1] == 'r' && "rrs"@[2] == 's');
    assert("ltf"@.len() == 3);
    assert("ltf"@[0] == 'l' && "ltf"@[1] == 't' && "ltf"@[2] == 'f');
    assert("rtf"@.len() == 3);
    assert("rtf"@[0] == 'r' && "rtf"@[1] == 't' && "rtf"@[2] == 'f');
    assert("ltb"@.len() == 3);
    assert("ltb"@[0] == 'l' && "ltb"@[1] == 't' && "ltb"@[2] == 'b');
    assert("rtb"@.len() == 3);
    assert("rtb"@[0] == 'r' && "rtb"@[1] == 't' && "rtb"@[2] == 'b');
}

/// The layout with roles that a name in a document denotes.
pub open spec fn named_layout(s: Seq<char>) -> Option<ChannelLayout> {
    if s == "mono"@ {
        Some(ChannelLayout::Mono)
    } else if s == "stereo"@ {
        Some(ChannelLayout::Stereo)
    } else if s == "quad"@ {
        Some(ChannelLayout::Quad)
    } else if s == "surround5_1"@ {
        Some(ChannelLayout::Surround5_1)
    } else if s == "surround7_1"@ {
        Some(ChannelLayout::Surround7_1)
    } else if s == "surround5_1_4"@ {
        Some(ChannelLayout::Surround5_1_4)
    } else {
        None
    }
}

fn layout_named(s: &str) -> (r: Option<ChannelLayout>)
    ensures
        r == named_layout(s@),
{
    if same(s, "mono") {
        Some(ChannelLayout::Mono)
    } else if same(s, "stereo") {
        Some(ChannelLayout::Stereo)
    } else if same(s, "quad") {
        Some(ChannelLayout::Quad)
    } else if same(s, "surround5_1") {
        Some(ChannelLayout::Surround5_1)
    } else if same(s, "surround7_1") {
        Some(ChannelLayout::Surround7_1)
    } else if same(s, "surround5_1_4") {
        Some(ChannelLayout::Surround5_1_4)
    } else {
        None
    }
}

/// The count of a discrete layout that a document denotes: what stands under its only key.
pub open spec fn discrete_count(d: Doc) -> Option<u32> {
    match d {
        Doc::Object(es) => if es.len() == 1 && es[0].0 == "discrete"@ {
            match es[0].1.unsigned() {
                Some(n) => if n <= u32::MAX {
                    Some(n as u32)
                } else {
                    None
                },
                None => None,
            }
        } else {
            None
        },
        _ => None,
    }
}

fn read_discrete_count(v: &Json) -> (r: Option<u32>)
    ensures
        r == discrete_count(v@),
{
    let es = v.as_object()?;
    assert(fields(es@).len() == es@.len());
    if es.len() != 1 || !same(es[0].0.as_str(), "discrete") {
        return None;
    }
    let n: u64 = es[0].1.as_u64()?;
    if n <= 0xffff_ffff {
        Some(n as u32)
    } else {
        None
    }
}

/// The layout that a document denotes: the name of one with roles, or a discrete one by its count.
pub open spec fn parsed_layout(d: Doc) -> Option<ChannelLayout> {
    match discrete_count(d) {
        Some(n) => Some(ChannelLayout::Discrete(n)),
        None => match bare_name(d) {
            Some(s) => named_layout(s),
            None => None,
        },
    }
}

impl ChannelLayout {
    /// A layout as a document holds it: its name, with the count of a discrete one under it.
    pub open spec fn doc(self) -> Doc {
        match self {
            ChannelLayout::Mono => Doc::Text("mono"@),
            ChannelLayout::Stereo => Doc::Text("stereo"@),
            ChannelLayout::Quad => Doc::Text("quad"@),
            ChannelLayout::Surround5_1 => Doc::Text("surround5_1"@),
            ChannelLayout::Surround7_1 => Doc::Text("surround7_1"@),
            ChannelLayout::Surround5_1_4 => Doc::Text("surround5_1_4"@),
            ChannelLayout::Discrete(n) => Doc::object().with(
                "discrete"@,
                Doc::Number(whole(n as u64)),
            ),
        }
    }

    /// The layout as a document holds it.
    pub fn to_json(&self) -> (r: Json)
        ensures
            r@ == self.doc(),
    {
        match self {
            ChannelLayout::Mono => Json::text("mono"),
            ChannelLayout::Stereo => Json::text("stereo"),
            ChannelLayout::Quad => Json::text("quad"),
            ChannelLayout::Surround5_1 => Json::text("surround5_1"),
            ChannelLayout::Surround7_1 => Json::text("surround7_1"),
            ChannelLayout::Surround5_1_4 => Json::text("surround5_1_4"),
            ChannelLayout::Discrete(n) => Json::new_object().with(
                "discrete",
                Json::whole(*n as u64),
            ),
        }
    }

    /// Reads a layout from a document.
    pub fn parse(v: &Json) -> (r: Option<ChannelLayout>)
        ensures
            r == parsed_layout(v@),
    {
        if let Some(n) = read_discrete_count(v) {
            return Some(ChannelLayout::Discrete(n));
        }
        match read_bare_name(v) {
            Some(s) => layout_named(s),
            None => None,
        }
    }
}

/// A layout that was written is read as the same layout, a discrete one with its count.
pub proof fn law_layout_reads_back(layout: ChannelLayout)
    ensures
        parsed_layout(layout.doc()) == Some(layout),
{
    reveal_strlit("mono");
    reveal_strlit("stereo");
    reveal_strlit("quad");
    reveal_strlit("surround5_1");
    reveal_strlit("surround7_1");
    reveal_strlit("surround5_1_4");
    assert("mono"@.len() == 4 && "quad"@.len() == 4 && "stereo"@.len() == 6);
    assert("mono"@[0] == 'm' && "quad"@[0] == 'q');
    assert("surround5_1"@.len() == 11 && "surround7_1"@.len() == 11);
    assert("surround5_1"@[8] == '5' && "surround7_1"@[8] == '7');
    assert("surround5_1_4"@.len() == 13);
    if let ChannelLayout::Discrete(n) = layout {
        let es = layout.doc()->Object_0;
        assert(es[0] == ("discrete"@, Doc::Number(whole(n as u64))));
    }
}

/// A layout has no role twice, left and right stand side by side, and the surround layouts have the
/// center third and the effects channel fourth.
pub proof fn law_layouts_are_in_order(layout: ChannelLayout)
    ensures
        ({
            let r = layout.role_list();
            &&& r.no_duplicates()
            &&& r.len() >= 2 ==> r[0] == ChannelRole::L && r[1] == ChannelRole::R
            &&& r.len() >= 6 ==> r[2] == ChannelRole::C && r[3] == ChannelRole::Lfe
            &&& layout == ChannelLayout::Mono ==> r.len() == 1 && r[0] == ChannelRole::M
            &&& layout == ChannelLayout::Stereo ==> r.len() == 2
            &&& layout == ChannelLayout::Quad ==> r.len() == 4 && r[2] == ChannelRole::Ls && r[3]
                == ChannelRole::Rs
            &&& layout == ChannelLayout::Surround5_1 ==> r.len() == 6 && r[4] == ChannelRole::Ls
                && r[5] == ChannelRole::Rs
            &&& layout == ChannelLayout::Surround7_1 ==> r.len() == 8 && r[4] == ChannelRole::Lss
                && r[5] == ChannelRole::Rss && r[6] == ChannelRole::Lrs && r[7] == ChannelRole::Rrs
            &&& layout == ChannelLayout::Surround5_1_4 ==> r.len() == 10 && r[4] == ChannelRole::Ls
                && r[5] == ChannelRole::Rs && r[6] == ChannelRole::Ltf && r[7] == ChannelRole::Rtf
                && r[8] == ChannelRole::Ltb && r[9] == ChannelRole::Rtb
            &&& layout is Discrete ==> r.len() == 0
        }),
{
}

/// A count that is given stands where there is no layout with roles; a layout with roles has its
/// own, and is refused exactly where another is given.
pub proof fn law_counts_and_layouts_agree(
    context: Seq<char>,
    channels: Option<u32>,
    layout: Option<ChannelLayout>,
)
    ensures
        layout is None ==> resolved_channels(context, channels, layout) == Ok::<
            Option<u32>,
            Seq<char>,
        >(channels),
        layout matches Some(l) ==> {
            let n = l.role_list().len();
            &&& n == 0 ==> resolved_channels(context, channels, layout) == Ok::<
                Option<u32>,
                Seq<char>,
            >(channels)
            &&& n > 0 ==> match channels {
                Some(c) => resolved_channels(context, channels, layout) is Ok <==> c == n,
                None => resolved_channels(context, channels, layout) == Ok::<
                    Option<u32>,
                    Seq<char>,
                >(Some(n as u32)),
            }
        },
{
}

} // verus!
