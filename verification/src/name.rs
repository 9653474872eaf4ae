//! Domain-name codec: length-prefixed label encoding and decoding with
//! compression-pointer resolution and a loop guard.

use vstd::prelude::*;

use crate::errors::DnsError;
use crate::utils::bytes_to_name_offset;
use crate::utils::pointer_target;

verus! {

/// The labels a vector of label vectors stands for.
pub open spec fn labels_of(v: Seq<Vec<u8>>) -> Seq<Seq<u8>> {
    v.map(|i: int, l: Vec<u8>| l@)
}

/// The labels of a name, each prefixed by its length octet, without the
/// terminating zero octet.
pub open spec fn encoded_labels(name: Seq<Seq<u8>>) -> Seq<u8>
    decreases name.len(),
{
    if name.len() == 0 {
        Seq::empty()
    } else {
        seq![name[0].len() as u8] + name[0] + encoded_labels(name.drop_first())
    }
}

/// The full wire form of a name: its labels followed by the zero terminator.
pub open spec fn encoded_name(name: Seq<Seq<u8>>) -> Seq<u8> {
    encoded_labels(name) + seq![0u8]
}

/// Every label of the name fits in the 6-bit length field.
pub open spec fn labels_fit(name: Seq<Seq<u8>>) -> bool {
    forall|i: int| 0 <= i < name.len() ==> name[i].len() <= 63
}

/// A name the encoder accepts: labels of at most 63 octets whose wire form,
/// terminator included, stays within 255 octets.
pub open spec fn valid_name(name: Seq<Seq<u8>>) -> bool {
    labels_fit(name) && encoded_name(name).len() <= 255
}

/// What encoding a name yields: the exact wire octets, or the error that the
/// name's shape forces.
pub open spec fn encode_name_spec(name: Seq<Seq<u8>>) -> Result<Seq<u8>, DnsError> {
    if !labels_fit(name) {
        Err(DnsError::LabelTooLong)
    } else if encoded_name(name).len() > 255 {
        Err(DnsError::NameTooLong)
    } else {
        Ok(encoded_name(name))
    }
}

/// One step of name decoding at `offset`, with `fuel` compression jumps
/// still allowed. Returns the decoded labels and the offset just past the
/// name as read from `offset` itself: a pointer ends the name after its two
/// octets, however long the target is.
pub open spec fn decode_name_rec(buf: Seq<u8>, offset: int, fuel: nat) -> Result<
    (Seq<Seq<u8>>, int),
    DnsError,
>
    decreases fuel, buf.len() - offset,
{
    if offset < 0 || offset >= buf.len() {
        Err(DnsError::TruncatedMessage)
    } else {
        let tag = buf[offset];
        if tag == 0 {
            Ok((Seq::empty(), offset + 1))
        } else if tag < 64 {
            if offset + 1 + tag > buf.len() {
                Err(DnsError::TruncatedMessage)
            } else {
                match decode_name_rec(buf, offset + 1 + tag, fuel) {
                    Ok((labels, end)) => Ok(
                        (seq![buf.subrange(offset + 1, offset + 1 + tag)] + labels, end),
                    ),
                    Err(e) => Err(e),
                }
            }
        } else if tag >= 192 {
            if offset + 2 > buf.len() {
                Err(DnsError::TruncatedMessage)
            } else if fuel == 0 {
                Err(DnsError::CompressionLoop)
            } else {
                match decode_name_rec(
                    buf,
                    pointer_target(buf[offset], buf[offset + 1]),
                    (fuel - 1) as nat,
                ) {
                    Ok((labels, _)) => Ok((labels, offset + 2)),
                    Err(e) => Err(e),
                }
            }
        } else {
            Err(DnsError::UnsupportedLabelType)
        }
    }
}

/// What decoding a name at `offset` yields. The jump budget is one per
/// octet of the buffer: a chain that long must revisit an offset, so it is
/// reported as a compression loop.
pub open spec fn decode_name_spec(buf: Seq<u8>, offset: int) -> Result<
    (Seq<Seq<u8>>, int),
    DnsError,
> {
    decode_name_rec(buf, offset, buf.len())
}

/// Encode a domain name as length-prefixed labels with a zero terminator.
/// Fails with `LabelTooLong` on a label over 63 octets and `NameTooLong`
/// when the wire form would exceed 255 octets.
pub fn encode_name(name: &Vec<Vec<u8>>) -> (r: Result<Vec<u8>, DnsError>)
    ensures
        match r {
            Ok(bytes) => encode_name_spec(labels_of(name@)) == Ok::<Seq<u8>, DnsError>(bytes@),
            Err(e) => encode_name_spec(labels_of(name@)) == Err::<Seq<u8>, DnsError>(e),
        },
{
    let ghost model = labels_of(name@);
    let mut i: usize = 0;
    while i < name.len()
        invariant
            i <= name@.len(),
            model == labels_of(name@),
            forall|j: int| 0 <= j < i ==> model[j].len() <= 63,
        decreases name@.len() - i,
    {
        if name[i].len() > 63 {
            assert(model[i as int].len() > 63);
            return Err(DnsError::LabelTooLong);
        }
        i = i + 1;
    }
    assert(labels_fit(model));

    let mut out: Vec<u8> = Vec::new();
    let mut i: usize = 0;
    while i < name.len()
        invariant
            i <= name@.len(),
            model == labels_of(name@),
            labels_fit(model),
            out@ == encoded_labels(model.take(i as int)),
        decreases name@.len() - i,
    {
        let label = &name[i];
        assert(label@ == model[i as int]);
        out.push(label.len() as u8);
        assert(out@ =~= encoded_labels(model.take(i as int)) + seq![label@.len() as u8]
            + label@.take(0));
        let mut k: usize = 0;
        while k < label.len()
            invariant
                k <= label@.len(),
                out@ == encoded_labels(model.take(i as int)) + seq![label@.len() as u8]
                    + label@.take(k as int),
            decreases label@.len() - k,
        {
            out.push(label[k]);
            assert(label@.take(k + 1) =~= label@.take(k as int).push(label@[k as int]));
            assert(out@ =~= encoded_labels(model.take(i as int)) + seq![label@.len() as u8]
                + label@.take(k + 1));
            k = k + 1;
        }
        proof {
            lemma_encoded_labels_snoc(model.take(i as int), model[i as int]);
            assert(model.take(i + 1) =~= model.take(i as int).push(model[i as int]));
            assert(label@.take(label@.len() as int) =~= label@);
            assert(out@ == encoded_labels(model.take(i + 1)));
        }
        i = i + 1;
    }
    assert(model.take(name@.len() as int) =~= model);
    out.push(0);
    assert(out@ =~= encoded_name(model));
    if out.len() > 255 {
        return Err(DnsError::NameTooLong);
    }
    Ok(out)
}

/// Appending a label to a name appends its length octet and its octets to
/// the encoded label sequence.
proof fn lemma_encoded_labels_snoc(name: Seq<Seq<u8>>, label: Seq<u8>)
    ensures
        encoded_labels(name.push(label)) == encoded_labels(name) + seq![label.len() as u8] + label,
    decreases name.len(),
{
    let whole = name.push(label);
    if name.len() == 0 {
        assert(whole[0] == label);
        assert(whole.drop_first() =~= Seq::<Seq<u8>>::empty());
        assert(encoded_labels(whole) == seq![whole[0].len() as u8] + whole[0] + encoded_labels(
            whole.drop_first(),
        ));
        assert(encoded_labels(Seq::<Seq<u8>>::empty()) == Seq::<u8>::empty());
        assert(encoded_labels(whole) =~= encoded_labels(name) + seq![label.len() as u8] + label);
    } else {
        assert(whole[0] == name[0]);
        assert(whole.drop_first() =~= name.drop_first().push(label));
        lemma_encoded_labels_snoc(name.drop_first(), label);
        assert(encoded_labels(whole) =~= encoded_labels(name) + seq![label.len() as u8] + label);
    }
}

/// The components of `s` split on every dot octet, each dot ending the
/// label gathered so far in `cur`.
pub open spec fn split_acc(s: Seq<u8>, cur: Seq<u8>) -> Seq<Seq<u8>>
    decreases s.len(),
{
    if s.len() == 0 {
        seq![cur]
    } else if s[0] == 46 {
        seq![cur] + split_acc(s.drop_first(), Seq::empty())
    } else {
        split_acc(s.drop_first(), cur.push(s[0]))
    }
}

/// The labels a dot-separated textual name stands for: one trailing dot is
/// dropped first, the empty remainder is the root name, and anything else
/// splits on dots.
pub open spec fn name_labels_of_text(t: Seq<u8>) -> Seq<Seq<u8>> {
    let s = if t.len() > 0 && t.last() == 46 {
        t.drop_last()
    } else {
        t
    };
    if s.len() == 0 {
        Seq::empty()
    } else {
        split_acc(s, Seq::empty())
    }
}

/// Split a dot-separated textual name, given as its octets, into labels.
/// One trailing dot is dropped, and the name consisting of a single dot (or
/// no octets at all) is the root name with no labels.
pub fn name_from_text(text: &[u8]) -> (labels: Vec<Vec<u8>>)
    ensures
        labels_of(labels@) == name_labels_of_text(text@),
{
    let n: usize = if text.len() > 0 && text[text.len() - 1] == 46 {
        text.len() - 1
    } else {
        text.len()
    };
    let ghost s = text@.take(n as int);
    proof {
        if text@.len() > 0 && text@.last() == 46 {
            assert(s =~= text@.drop_last());
        } else {
            assert(s =~= text@);
        }
    }
    if n == 0 {
        let labels: Vec<Vec<u8>> = Vec::new();
        assert(labels_of(labels@) =~= Seq::<Seq<u8>>::empty());
        return labels;
    }
    let mut labels: Vec<Vec<u8>> = Vec::new();
    let mut cur: Vec<u8> = Vec::new();
    proof {
        assert(s.skip(0) =~= s);
        assert(labels_of(labels@) =~= Seq::<Seq<u8>>::empty());
        assert(Seq::<Seq<u8>>::empty() + split_acc(s, cur@) =~= split_acc(s, cur@));
    }
    let mut i: usize = 0;
    while i < n
        invariant
            i <= n,
            n <= text@.len(),
            s == text@.take(n as int),
            split_acc(s, Seq::empty()) == labels_of(labels@) + split_acc(s.skip(i as int), cur@),
        decreases n - i,
    {
        proof {
            assert(s.skip(i as int)[0] == s[i as int]);
            assert(s[i as int] == text@[i as int]);
            assert(s.skip(i as int).drop_first() =~= s.skip(i + 1));
        }
        let b = text[i];
        if b == 46 {
            let ghost old_view = labels_of(labels@);
            let ghost done = cur@;
            labels.push(cur);
            cur = Vec::new();
            proof {
                assert(labels_of(labels@) =~= old_view.push(done));
                assert(old_view.push(done) + split_acc(s.skip(i + 1), cur@) =~= old_view + (seq![
                    done,
                ] + split_acc(s.skip(i + 1), cur@)));
            }
        } else {
            cur.push(b);
        }
        i = i + 1;
    }
    proof {
        assert(s.skip(n as int) =~= Seq::<u8>::empty());
        assert(split_acc(Seq::<u8>::empty(), cur@) == seq![cur@]);
    }
    let ghost old_view = labels_of(labels@);
    let ghost done = cur@;
    labels.push(cur);
    proof {
        assert(labels_of(labels@) =~= old_view.push(done));
        assert(old_view.push(done) =~= old_view + seq![done]);
    }
    labels
}

/// A name whose labels are non-empty and fit the length field decodes from
/// its own encoding, wherever that encoding stands in a buffer and whatever
/// the jump budget: decoding returns exactly the original labels and stops
/// just past the terminator. An empty label cannot round-trip, since its
/// length octet is the terminator itself.
pub proof fn lemma_decode_encoded_name(buf: Seq<u8>, offset: int, name: Seq<Seq<u8>>, fuel: nat)
    requires
        labels_fit(name),
        forall|i: int| 0 <= i < name.len() ==> name[i].len() >= 1,
        0 <= offset,
        offset + encoded_name(name).len() <= buf.len(),
        buf.subrange(offset, offset + encoded_name(name).len() as int) == encoded_name(name),
    ensures
        decode_name_rec(buf, offset, fuel) == Ok::<(Seq<Seq<u8>>, int), DnsError>(
            (name, offset + encoded_name(name).len()),
        ),
    decreases name.len(),
{
    let enc = encoded_name(name);
    assert(forall|k: int|
        0 <= k < enc.len() ==> #[trigger] buf.subrange(offset, offset + enc.len() as int)[k]
            == buf[offset + k]);
    if name.len() == 0 {
        assert(encoded_labels(name) == Seq::<u8>::empty());
        assert(enc =~= seq![0u8]);
        assert(buf[offset] == enc[0]);
        assert(buf[offset] == 0);
        assert(name =~= Seq::<Seq<u8>>::empty());
    } else {
        let l = name[0];
        let ll = l.len() as int;
        let rest = name.drop_first();
        let enc_rest = encoded_name(rest);
        assert(encoded_labels(name) == seq![l.len() as u8] + l + encoded_labels(rest));
        assert(enc =~= seq![l.len() as u8] + l + enc_rest);
        assert(enc.len() == 1 + ll + enc_rest.len());
        assert(buf[offset] == enc[0]);
        assert(enc[0] == l.len() as u8);
        assert(1 <= ll <= 63);
        assert(buf[offset] as int == ll);
        assert(offset + 1 + ll <= buf.len());
        assert(buf.subrange(offset + 1, offset + 1 + ll) =~= l) by {
            assert(forall|k: int| 0 <= k < ll ==> enc[1 + k] == l[k]);
        }
        assert(buf.subrange(offset + 1 + ll, offset + 1 + ll + enc_rest.len() as int) =~= enc_rest)
            by {
            assert(forall|k: int| 0 <= k < enc_rest.len() ==> enc[1 + ll + k] == enc_rest[k]);
        }
        lemma_decode_encoded_name(buf, offset + 1 + ll, rest, fuel);
        assert(seq![buf.subrange(offset + 1, offset + 1 + ll)] + rest =~= name);
    }
}

/// Decode a domain name from `buf` starting at `offset`, following
/// compression pointers. Returns the labels and the offset immediately
/// after the name as it stands at `offset` (after the first pointer's two
/// octets when the name is compressed). Fails with `TruncatedMessage` when
/// the name runs past the buffer end, `UnsupportedLabelType` on a reserved
/// tag pattern, and `CompressionLoop` when pointer chasing exceeds one jump
/// per buffer octet.
pub fn extract_name(buf: &[u8], offset: usize) -> (r: Result<(Vec<Vec<u8>>, usize), DnsError>)
    ensures
        match r {
            Ok((name, end)) => decode_name_spec(buf@, offset as int) == Ok::<
                (Seq<Seq<u8>>, int),
                DnsError,
            >((labels_of(name@), end as int)),
            Err(e) => decode_name_spec(buf@, offset as int) == Err::<(Seq<Seq<u8>>, int), DnsError>(
                e,
            ),
        },
{
    let ghost whole = decode_name_spec(buf@, offset as int);
    let mut labels: Vec<Vec<u8>> = Vec::new();
    let mut cur: usize = offset;
    let mut fuel: usize = buf.len();
    let mut ret_end: Option<usize> = None;
    loop
        invariant
            whole == decode_name_spec(buf@, offset as int),
            fuel <= buf@.len(),
            (match decode_name_rec(buf@, cur as int, fuel as nat) {
                Ok(rest) => whole == Ok::<(Seq<Seq<u8>>, int), DnsError>(
                    (
                        labels_of(labels@) + rest.0,
                        match ret_end {
                            Some(e) => e as int,
                            None => rest.1,
                        },
                    ),
                ),
                Err(e) => whole == Err::<(Seq<Seq<u8>>, int), DnsError>(e),
            }),
        decreases fuel, (if cur <= buf@.len() { buf@.len() - cur } else { 0int }),
    {
        if cur >= buf.len() {
            return Err(DnsError::TruncatedMessage);
        }
        let tag = buf[cur];
        if tag == 0 {
            let end = match ret_end {
                Some(e) => e,
                None => cur + 1,
            };
            proof {
                assert(labels_of(labels@) + Seq::<Seq<u8>>::empty() =~= labels_of(labels@));
            }
            return Ok((labels, end));
        } else if tag < 64 {
            let llen = tag as usize;
            if llen > buf.len() - (cur + 1) {
                return Err(DnsError::TruncatedMessage);
            }
            let label = vstd::slice::slice_to_vec(
                vstd::slice::slice_subrange(buf, cur + 1, cur + 1 + llen),
            );
            let ghost old_view = labels_of(labels@);
            let ghost lbl = label@;
            labels.push(label);
            proof {
                assert(labels_of(labels@) =~= old_view.push(lbl));
                match decode_name_rec(buf@, cur + 1 + llen, fuel as nat) {
                    Ok(p) => {
                        assert(old_view.push(lbl) + p.0 =~= old_view + (seq![lbl] + p.0));
                    },
                    Err(_) => {},
                }
            }
            cur = cur + 1 + llen;
        } else if tag >= 192 {
            if cur + 1 >= buf.len() {
                return Err(DnsError::TruncatedMessage);
            }
            if fuel == 0 {
                return Err(DnsError::CompressionLoop);
            }
            fuel = fuel - 1;
            let target = bytes_to_name_offset(buf[cur], buf[cur + 1]) as usize;
            if ret_end.is_none() {
                ret_end = Some(cur + 2);
            }
            cur = target;
        } else {
            return Err(DnsError::UnsupportedLabelType);
        }
    }
}

} // verus!
