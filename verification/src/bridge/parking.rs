//! What holds of the SDP of a parked stream.

use vstd::prelude::*;

use crate::bridge::provision::{declared_channels, parking_text, rtpmap};
use crate::text::{
    dec, is_space, lemma_dec_digits, lemma_dec_value, lemma_pieces_next, lemma_pieces_one,
    lemma_stripped_concat, occurs, occurs_at, pieces, stripped, trimmed, trimmed_end,
    trimmed_start,
};

verus! {

proof fn lemma_trimmed_end_head(s: Seq<char>)
    requires
        s.len() > 0,
        !is_space(s[0]),
    ensures
        trimmed_end(s).len() > 0,
        trimmed_end(s)[0] == s[0],
    decreases s.len(),
{
    if is_space(s.last()) {
        lemma_trimmed_end_head(s.drop_last());
    }
}

/// A line that does not start with white space keeps its first character.
proof fn lemma_trimmed_head(s: Seq<char>)
    requires
        s.len() > 0,
        !is_space(s[0]),
    ensures
        trimmed(s).len() > 0,
        trimmed(s)[0] == s[0],
{
    assert(trimmed_start(s) == s);
    lemma_trimmed_end_head(s);
}

/// A carriage return behind a line is white space.
proof fn lemma_trimmed_return(s: Seq<char>)
    requires
        s.len() > 0,
        !is_space(s[0]),
        !is_space(s.last()),
    ensures
        trimmed(s.push('\r')) == s,
        trimmed(s) == s,
{
    let t = s.push('\r');
    assert(t[0] == s[0]);
    assert(trimmed_start(t) == t);
    assert(trimmed_start(s) == s);
    assert(t.drop_last() =~= s);
    assert(is_space('\r'));
    assert(trimmed_end(t) == trimmed_end(s));
}

/// A line with another first character is not the one that declares the channels.
proof fn lemma_other_line(s: Seq<char>)
    requires
        s.len() > 0,
        !is_space(s[0]),
        s[0] != 'a',
    ensures
        stripped(trimmed(s), "a=rtpmap:"@) is None,
{
    lemma_trimmed_head(s);
    reveal_strlit("a=rtpmap:");
    assert("a=rtpmap:"@[0] == 'a');
}

/// A later line does not change what the first declaration says.
proof fn lemma_rtpmap_push(lines: Seq<Seq<char>>, line: Seq<char>)
    ensures
        rtpmap(lines.push(line)) == (match rtpmap(lines) {
            Some(v) => Some(v),
            None => stripped(trimmed(line), "a=rtpmap:"@),
        }),
{
    assert(lines.push(line).drop_last() =~= lines);
}

proof fn lemma_digits_plain(n: nat)
    ensures
        dec(n).len() > 0,
        !dec(n).contains('/'),
        !dec(n).contains('\n'),
        !is_space(dec(n)[0]),
        !is_space(dec(n).last()),
{
    lemma_dec_value(n);
    lemma_dec_digits(n, 0);
    lemma_dec_digits(n, dec(n).len() - 1);
    if dec(n).contains('/') {
        let i = choose|i: int| 0 <= i < dec(n).len() && dec(n)[i] == '/';
        lemma_dec_digits(n, i);
    }
    if dec(n).contains('\n') {
        let i = choose|i: int| 0 <= i < dec(n).len() && dec(n)[i] == '\n';
        lemma_dec_digits(n, i);
    }
}

/// The value of the declaration: `98 L24/48000/` and the channels.
proof fn lemma_declared_value(n: nat)
    ensures
        pieces("98 L24/48000/"@ + dec(n), '/').last() == dec(n),
{
    lemma_digits_plain(n);
    reveal_strlit("98 L24/48000/");
    reveal_strlit("98 L24");
    reveal_strlit("48000");
    let a = "98 L24"@;
    let b = "48000"@;
    assert(!a.contains('/')) by {
        if a.contains('/') {
            let i = choose|i: int| 0 <= i < a.len() && a[i] == '/';
            assert(a[0] == '9' && a[1] == '8' && a[2] == ' ' && a[3] == 'L' && a[4] == '2' && a[5]
                == '4');
        }
    }
    assert(!b.contains('/')) by {
        if b.contains('/') {
            let i = choose|i: int| 0 <= i < b.len() && b[i] == '/';
            assert(b[0] == '4' && b[1] == '8' && b[2] == '0' && b[3] == '0' && b[4] == '0');
        }
    }
    lemma_pieces_one(a, '/');
    lemma_pieces_next(a, b, '/');
    let ab = a.push('/') + b;
    lemma_pieces_next(ab, dec(n), '/');
    assert("98 L24/48000/"@ =~= ab.push('/'));
}

/// A text without a line break, by its characters.
proof fn lemma_no_break(s: Seq<char>)
    requires
        forall|i: int| 0 <= i < s.len() ==> s[i] != '\n',
    ensures
        !s.contains('\n'),
{
}

/// The SDP of a parked stream declares exactly the channels of the stream, and carries the mark by
/// which a parked stream is known, for every group that is written on one line.
pub proof fn law_parked_stream_is_known(id: u8, channels: usize, group: Seq<char>)
    requires
        !group.contains('\n'),
    ensures
        occurs(parking_text(id, channels as nat, group), "mxl-bridge parked RX"@),
        declared_channels(parking_text(id, channels as nat, group)) == Some(channels as nat),
{
    let n = channels as nat;
    let text = parking_text(id, n, group);
    let number = dec((id + 1) as nat);
    lemma_digits_plain((id + 1) as nat);
    lemma_digits_plain(n);
    reveal_strlit("v=0\r\no=- 0 0 IN IP4 0.0.0.0\r\ns=");
    reveal_strlit("mxl-bridge parked RX");
    reveal_strlit(" ");
    reveal_strlit("\r\nc=IN IP4 ");
    reveal_strlit("/15\r\nt=0 0\r\nm=audio 5004 RTP/AVP 98\r\nc=IN IP4 ");
    reveal_strlit("/15\r\na=rtpmap:98 L24/48000/");
    reveal_strlit("\r\na=ptime:1\r\na=mediaclk:direct=0\r\na=recvonly\r\n");
    reveal_strlit("v=0\r");
    reveal_strlit("o=- 0 0 IN IP4 0.0.0.0\r");
    reveal_strlit("s=");
    reveal_strlit("c=IN IP4 ");
    reveal_strlit("/15\r");
    reveal_strlit("t=0 0\r");
    reveal_strlit("m=audio 5004 RTP/AVP 98\r");
    reveal_strlit("a=rtpmap:98 L24/48000/");
    reveal_strlit("a=rtpmap:");
    reveal_strlit("98 L24/48000/");
    reveal_strlit("a=ptime:1\r");
    reveal_strlit("a=mediaclk:direct=0\r");
    reveal_strlit("a=recvonly\r");
    let mark = "mxl-bridge parked RX"@;
    let head = "v=0\r\no=- 0 0 IN IP4 0.0.0.0\r\ns="@;
    assert(text.subrange(head.len() as int, (head.len() + mark.len()) as int) =~= mark);
    assert(occurs_at(text, mark, head.len() as int));
    let l0 = "v=0\r"@;
    let l1 = "o=- 0 0 IN IP4 0.0.0.0\r"@;
    let l2 = ("s="@ + mark + " "@ + number).push('\r');
    let l3 = "c=IN IP4 "@ + group + "/15\r"@;
    let l4 = "t=0 0\r"@;
    let l5 = "m=audio 5004 RTP/AVP 98\r"@;
    let value = "98 L24/48000/"@ + dec(n);
    let l7 = ("a=rtpmap:"@ + value).push('\r');
    let l8 = "a=ptime:1\r"@;
    let l9 = "a=mediaclk:direct=0\r"@;
    let l10 = "a=recvonly\r"@;
    let l11 = Seq::<char>::empty();
    lemma_no_break(l0);
    lemma_no_break(l1);
    assert(!l2.contains('\n')) by {
        assert forall|i: int| 0 <= i < l2.len() implies l2[i] != '\n' by {
            let k = i - 2 - mark.len() - 1;
            if 0 <= k < number.len() {
                assert(l2[i] == number[k]);
                assert(number.contains(number[k]));
            }
        }
    }
    assert(!l3.contains('\n')) by {
        assert forall|i: int| 0 <= i < l3.len() implies l3[i] != '\n' by {
            let k = i - 9;
            if 0 <= k < group.len() {
                assert(l3[i] == group[k]);
                assert(group.contains(group[k]));
            }
        }
    }
    lemma_no_break(l4);
    lemma_no_break(l5);
    assert(!l7.contains('\n')) by {
        assert forall|i: int| 0 <= i < l7.len() implies l7[i] != '\n' by {
            let k = i - 9 - 13;
            if 0 <= k < dec(n).len() {
                assert(l7[i] == dec(n)[k]);
                assert(dec(n).contains(dec(n)[k]));
            }
        }
    }
    lemma_no_break(l8);
    lemma_no_break(l9);
    lemma_no_break(l10);
    lemma_no_break(l11);
    let t0 = l0;
    lemma_pieces_one(t0, '\n');
    let t1 = t0.push('\n') + l1;
    lemma_pieces_next(t0, l1, '\n');
    let t2 = t1.push('\n') + l2;
    lemma_pieces_next(t1, l2, '\n');
    let t3 = t2.push('\n') + l3;
    lemma_pieces_next(t2, l3, '\n');
    let t4 = t3.push('\n') + l4;
    lemma_pieces_next(t3, l4, '\n');
    let t5 = t4.push('\n') + l5;
    lemma_pieces_next(t4, l5, '\n');
    let t6 = t5.push('\n') + l3;
    lemma_pieces_next(t5, l3, '\n');
    let t7 = t6.push('\n') + l7;
    lemma_pieces_next(t6, l7, '\n');
    let t8 = t7.push('\n') + l8;
    lemma_pieces_next(t7, l8, '\n');
    let t9 = t8.push('\n') + l9;
    lemma_pieces_next(t8, l9, '\n');
    let t10 = t9.push('\n') + l10;
    lemma_pieces_next(t9, l10, '\n');
    let t11 = t10.push('\n') + l11;
    lemma_pieces_next(t10, l11, '\n');
    assert(text == t11) by {
        let x1 = head + mark + " "@ + number;
        assert(head =~= (l0.push('\n') + l1).push('\n') + "s="@);
        assert(x1.push('\r') =~= t2);
        let x2 = x1 + "\r\nc=IN IP4 "@ + group;
        assert("\r\nc=IN IP4 "@ =~= seq!['\r', '\n'] + "c=IN IP4 "@);
        assert(x2 + "/15\r"@ =~= t3);
        let x3 = x2 + "/15\r\nt=0 0\r\nm=audio 5004 RTP/AVP 98\r\nc=IN IP4 "@ + group;
        assert("/15\r\nt=0 0\r\nm=audio 5004 RTP/AVP 98\r\nc=IN IP4 "@ =~= (("/15\r"@.push('\n')
            + l4).push('\n') + l5).push('\n') + "c=IN IP4 "@);
        assert(x3 + "/15\r"@ =~= t6);
        let x4 = x3 + "/15\r\na=rtpmap:98 L24/48000/"@ + dec(n);
        assert("/15\r\na=rtpmap:98 L24/48000/"@ =~= "/15\r"@.push('\n') + "a=rtpmap:"@
            + "98 L24/48000/"@);
        assert(x4.push('\r') =~= t7);
        assert("\r\na=ptime:1\r\na=mediaclk:direct=0\r\na=recvonly\r\n"@ =~= (((seq!['\r', '\n']
            + l8).push('\n') + l9).push('\n') + l10).push('\n'));
        assert(text =~= t11);
    }
    let p0 = seq![l0];
    let p1 = p0.push(l1);
    let p2 = p1.push(l2);
    let p3 = p2.push(l3);
    let p4 = p3.push(l4);
    let p5 = p4.push(l5);
    let p6 = p5.push(l3);
    let p7 = p6.push(l7);
    let p8 = p7.push(l8);
    let p9 = p8.push(l9);
    let p10 = p9.push(l10);
    let p11 = p10.push(l11);
    assert(pieces(text, '\n') == p11);
    lemma_other_line(l0);
    lemma_other_line(l1);
    lemma_other_line(l2);
    lemma_other_line(l3);
    lemma_other_line(l4);
    lemma_other_line(l5);
    let none = Seq::<Seq<char>>::empty();
    assert(rtpmap(none) is None);
    assert(p0 =~= none.push(l0));
    lemma_rtpmap_push(none, l0);
    lemma_rtpmap_push(p0, l1);
    lemma_rtpmap_push(p1, l2);
    lemma_rtpmap_push(p2, l3);
    lemma_rtpmap_push(p3, l4);
    lemma_rtpmap_push(p4, l5);
    lemma_rtpmap_push(p5, l3);
    let line = "a=rtpmap:"@ + value;
    assert(line.last() == dec(n).last());
    assert(line[0] == 'a');
    lemma_trimmed_return(line);
    lemma_stripped_concat("a=rtpmap:"@, value);
    lemma_rtpmap_push(p6, l7);
    assert(rtpmap(p7) == Some(value));
    lemma_rtpmap_push(p7, l8);
    lemma_rtpmap_push(p8, l9);
    lemma_rtpmap_push(p9, l10);
    lemma_rtpmap_push(p10, l11);
    assert(rtpmap(p11) == Some(value));
    lemma_declared_value(n);
    lemma_trimmed_return(dec(n));
    lemma_dec_value(n);
}

/// The SDP of a parked stream names the group, and the number of the stream.
pub proof fn law_a_parked_stream_names_its_group(id: u8, channels: nat, group: Seq<char>)
    ensures
        occurs(parking_text(id, channels, group), "c=IN IP4 "@ + group + "/15"@),
        occurs(
            parking_text(id, channels, group),
            "mxl-bridge parked RX "@ + dec((id + 1) as nat),
        ),
{
    let text = parking_text(id, channels, group);
    let number = dec((id + 1) as nat);
    reveal_strlit("v=0\r\no=- 0 0 IN IP4 0.0.0.0\r\ns=");
    reveal_strlit("mxl-bridge parked RX");
    reveal_strlit("mxl-bridge parked RX ");
    reveal_strlit(" ");
    reveal_strlit("\r\nc=IN IP4 ");
    reveal_strlit("c=IN IP4 ");
    reveal_strlit("/15");
    reveal_strlit("/15\r\nt=0 0\r\nm=audio 5004 RTP/AVP 98\r\nc=IN IP4 ");
    reveal_strlit("/15\r\na=rtpmap:98 L24/48000/");
    reveal_strlit("\r\na=ptime:1\r\na=mediaclk:direct=0\r\na=recvonly\r\n");
    let head = "v=0\r\no=- 0 0 IN IP4 0.0.0.0\r\ns="@;
    let named = "mxl-bridge parked RX "@ + number;
    let at = head.len() as int;
    assert(text.subrange(at, at + named.len()) =~= named);
    assert(occurs_at(text, named, at));
    let line = "c=IN IP4 "@ + group + "/15"@;
    let here = at + named.len() + 2;
    assert(text.subrange(here, here + line.len()) =~= line);
    assert(occurs_at(text, line, here));
}

} // verus!
