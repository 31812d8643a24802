//! The quant-descriptor table codec: the `[u32 count][descriptors]` section that sits after
//! the tensor table and before the graph blob.
use super::read::{lemma_dec_many_err, read_str};
use super::{ContainerError, DescriptorView, QuantDescriptor, SCHEME_AFFINE, dec_descriptor, dec_descriptors,
    dec_many, descriptor_item, descriptors_view};
use super::write::{str_fits_u32, write_str};
use super::{descriptor_enc, descriptors_fit, enc_descriptor, enc_descriptors, enc_many, mins_text, str_fits};
use crate::wire::{push_u32, push_u64, read_bytes, read_u32, read_u64, read_u8, utf8_bytes};
use vstd::prelude::*;

verus! {

fn read_descriptor(b: &[u8], p: usize, i: usize) -> (r: Result<(QuantDescriptor, usize), ContainerError>)
    requires
        p <= b@.len(),
    ensures
        match r {
            Ok((d, q)) => dec_descriptor(b@, p as int, i as int) == Ok::<(DescriptorView, int), ContainerError>((d@, q as int)) && q <= b@.len(),
            Err(e) => dec_descriptor(b@, p as int, i as int) == Err::<(DescriptorView, int), ContainerError>(e),
        },
{
    let (weight_fqn, q) = match read_str(b, p) {
        Ok(x) => x,
        Err(e) => return Err(e),
    };
    let (sb, q2) = match read_bytes(b, q, 2) {
        Some(x) => x,
        None => return Err(ContainerError::UnexpectedEof),
    };
    let scheme = sb[0];
    let bits = sb[1];
    if scheme != SCHEME_AFFINE {
        return Err(ContainerError::UnsupportedScheme { descriptor: i, scheme });
    }
    let (group_size, q3) = match read_u64(b, q2) {
        Some(x) => x,
        None => return Err(ContainerError::UnexpectedEof),
    };
    let (sym, q4) = match read_u8(b, q3) {
        Some(x) => x,
        None => return Err(ContainerError::UnexpectedEof),
    };
    let (scales_fqn, q5) = match read_str(b, q4) {
        Ok(x) => x,
        Err(e) => return Err(e),
    };
    let (mins, q6) = match read_str(b, q5) {
        Ok(x) => x,
        Err(e) => return Err(e),
    };
    let mins_fqn = if mins.as_str().is_empty() {
        None
    } else {
        Some(mins)
    };
    Ok((
        QuantDescriptor {
            weight_fqn,
            bits,
            group_size: group_size as usize,
            symmetric: sym != 0,
            scales_fqn,
            mins_fqn,
        },
        q6,
    ))
}

/// Reads the descriptor table at `p`; errs with `UnexpectedEof` when the bytes end first
/// (also when `p` lies past their end).
pub fn read_descriptors(b: &[u8], p: usize) -> (r: Result<(Vec<QuantDescriptor>, usize), ContainerError>)
    ensures
        match r {
            Ok((v, q)) => dec_descriptors(b@, p as int) == Ok::<(Seq<DescriptorView>, int), ContainerError>((descriptors_view(v@), q as int)) && q <= b@.len(),
            Err(e) => dec_descriptors(b@, p as int) == Err::<(Seq<DescriptorView>, int), ContainerError>(e),
        },
{
    let (nd, p0) = match read_u32(b, p) {
        Some(x) => x,
        None => return Err(ContainerError::UnexpectedEof),
    };
    assert(dec_descriptors(b@, p as int) == dec_many(descriptor_item(), b@, p0 as int, nd as nat));
    let mut v: Vec<QuantDescriptor> = Vec::new();
    assert(descriptors_view(v@) =~= seq![]);
    let mut q = p0;
    let mut i: u32 = 0;
    while i < nd
        invariant
            i <= nd,
            q <= b@.len(),
            dec_descriptors(b@, p as int) == dec_many(descriptor_item(), b@, p0 as int, nd as nat),
            dec_many(descriptor_item(), b@, p0 as int, i as nat) == Ok::<(Seq<DescriptorView>, int), ContainerError>((descriptors_view(v@), q as int)),
        decreases nd - i,
    {
        match read_descriptor(b, q, i as usize) {
            Ok((d, q2)) => {
                proof {
                    assert(descriptors_view(v@.push(d)) =~= descriptors_view(v@).push(d@));
                }
                v.push(d);
                q = q2;
            },
            Err(e) => {
                proof {
                    assert(dec_many(descriptor_item(), b@, p0 as int, (i + 1) as nat) == Err::<(Seq<DescriptorView>, int), ContainerError>(e));
                    lemma_dec_many_err(descriptor_item(), b@, p0 as int, (i + 1) as nat, nd as nat);
                }
                return Err(e);
            },
        }
        i = i + 1;
    }
    Ok((v, q))
}

/// Whether every string of every descriptor fits a u32 length prefix, and the count its u32.
pub fn check_descriptors(ds: &[QuantDescriptor]) -> (r: bool)
    ensures
        r == descriptors_fit(descriptors_view(ds@)),
{
    if ds.len() > 0xffff_ffff {
        return false;
    }
    let mut i: usize = 0;
    while i < ds.len()
        invariant
            i <= ds@.len(),
            ds@.len() <= u32::MAX,
            descriptors_view(ds@).len() == ds@.len(),
            forall|k: int| #![trigger descriptors_view(ds@)[k]] 0 <= k < i ==> str_fits(descriptors_view(ds@)[k].weight_fqn)
                && str_fits(descriptors_view(ds@)[k].scales_fqn) && str_fits(mins_text(descriptors_view(ds@)[k].mins_fqn)),
        decreases ds@.len() - i,
    {
        let d = &ds[i];
        assert(descriptors_view(ds@)[i as int] == d@);
        let mins_ok = match &d.mins_fqn {
            Some(m) => {
                assert(mins_text(descriptors_view(ds@)[i as int].mins_fqn) == m@);
                str_fits_u32(m.as_str())
            },
            None => {
                proof {
                    reveal_strlit("");
                    assert(utf8_bytes(seq![]) =~= seq![]);
                }
                true
            },
        };
        if !str_fits_u32(d.weight_fqn.as_str()) || !str_fits_u32(d.scales_fqn.as_str()) || !mins_ok {
            assert(!(str_fits(descriptors_view(ds@)[i as int].weight_fqn) && str_fits(descriptors_view(ds@)[i as int].scales_fqn)
                && str_fits(mins_text(descriptors_view(ds@)[i as int].mins_fqn))));
            assert(!descriptors_fit(descriptors_view(ds@)));
            return false;
        }
        assert(str_fits(descriptors_view(ds@)[i as int].weight_fqn) && str_fits(descriptors_view(ds@)[i as int].scales_fqn)
            && str_fits(mins_text(descriptors_view(ds@)[i as int].mins_fqn)));
        i = i + 1;
    }
    assert(i == ds@.len());
    assert forall|k: int| #![trigger descriptors_view(ds@)[k]] 0 <= k < descriptors_view(ds@).len() implies str_fits(descriptors_view(ds@)[k].weight_fqn)
        && str_fits(descriptors_view(ds@)[k].scales_fqn) && str_fits(mins_text(descriptors_view(ds@)[k].mins_fqn)) by {
        assert(k < i);
    }
    assert(descriptors_fit(descriptors_view(ds@)));
    true
}

/// Appends one descriptor: weight name, scheme tag, bits, group size, symmetry flag, scales
/// name and the mins name (an absent `mins` is written as the empty string).
fn write_descriptor(out: &mut Vec<u8>, d: &QuantDescriptor)
    requires
        str_fits(d@.weight_fqn),
        str_fits(d@.scales_fqn),
        str_fits(mins_text(d@.mins_fqn)),
    ensures
        final(out)@ == old(out)@ + enc_descriptor(d@),
{
    let ghost before = out@;
    write_str(out, d.weight_fqn.as_str());
    out.push(SCHEME_AFFINE);
    out.push(d.bits);
    push_u64(out, d.group_size as u64);
    out.push(if d.symmetric { 1u8 } else { 0u8 });
    write_str(out, d.scales_fqn.as_str());
    match &d.mins_fqn {
        Some(m) => write_str(out, m.as_str()),
        None => {
            proof {
                reveal_strlit("");
                assert(""@ =~= seq![]);
                assert(utf8_bytes(seq![]) =~= seq![]);
            }
            write_str(out, "")
        },
    }
    proof {
        reveal_strlit("");
        assert(out@ =~= before + enc_descriptor(d@));
    }
}

/// Appends the descriptor table: the count, then each descriptor.
pub fn write_descriptors(out: &mut Vec<u8>, ds: &[QuantDescriptor])
    requires
        descriptors_fit(descriptors_view(ds@)),
    ensures
        final(out)@ == old(out)@ + enc_descriptors(descriptors_view(ds@)),
{
    let ghost start = out@;
    let ghost dv = descriptors_view(ds@);
    push_u32(out, ds.len() as u32);
    let ghost head = out@;
    let mut i: usize = 0;
    while i < ds.len()
        invariant
            i <= ds@.len(),
            dv == descriptors_view(ds@),
            head == start + vstd::bytes::spec_u32_to_le_bytes(ds@.len() as u32),
            descriptors_fit(dv),
            out@ == head + enc_many(descriptor_enc(), dv.take(i as int)),
        decreases ds@.len() - i,
    {
        let d = &ds[i];
        assert(dv[i as int] == d@);
        write_descriptor(out, d);
        proof {
            assert(dv.take(i as int + 1).drop_last() =~= dv.take(i as int));
        }
        i = i + 1;
    }
    assert(dv.take(ds@.len() as int) =~= dv);
}

} // verus!
