use vstd::prelude::*;

verus! {

/// Files shorter than this many bytes are not kept as cached audio.
pub const MIN_AUDIO_SIZE: u64 = 8192;

/// `s` with every `from` replaced by `to`.
pub open spec fn replace_char(s: Seq<char>, from: char, to: char) -> Seq<char> {
    s.map_values(|c: char| if c == from { to } else { c })
}

/// The extension of cached track files.
pub open spec fn audio_ext() -> Seq<char> {
    seq!['.', 'a', 'u', 'd', 'i', 'o']
}

/// The name without its `.audio` extension, where it ends with one.
pub open spec fn strip_audio_ext(name: Seq<char>) -> Option<Seq<char>> {
    if name.len() >= 6 && name.subrange(name.len() - 6, name.len() as int) == audio_ext() {
        Some(name.subrange(0, name.len() - 6))
    } else {
        None
    }
}

/// The cache file name of a track: `:` becomes `_`, and `.audio` is added.
pub open spec fn cache_file_name(urn: Seq<char>) -> Seq<char> {
    replace_char(urn, ':', '_') + audio_ext()
}

/// The track that a cache file name stands for, if it is one.
pub open spec fn urn_of_file_name(name: Seq<char>) -> Option<Seq<char>> {
    match strip_audio_ext(name) {
        Some(stem) => Some(replace_char(stem, '_', ':')),
        None => None,
    }
}

#[verifier::external_body]
fn push_char(s: &mut String, c: char)
    ensures
        final(s)@ == old(s)@.push(c),
{
    s.push(c);
}

fn chars_of(s: &str) -> (v: Vec<char>)
    ensures
        v@ == s@,
{
    let mut v: Vec<char> = Vec::new();
    for c in it: s.chars()
        invariant
            v@ == it.seq().take(it.index() as int),
    {
        v.push(c);
    }
    v
}

/// The cache file name of a track.
pub fn urn_to_filename(urn: &str) -> (name: String)
    ensures
        name@ == cache_file_name(urn@),
{
    let mut out = String::new();
    for c in it: urn.chars()
        invariant
            out@ == replace_char(it.seq().take(it.index() as int), ':', '_'),
    {
        push_char(&mut out, if c == ':' { '_' } else { c });
    }
    proof {
        reveal_strlit(".audio");
    }
    out.append(".audio");
    out
}

/// The track that a cache file name stands for: the name without its
/// `.audio` extension, with `_` turned back into `:`. `None` where the name
/// does not end with `.audio`.
pub fn filename_to_urn(filename: &str) -> (urn: Option<String>)
    ensures
        match urn {
            Some(u) => urn_of_file_name(filename@) == Some(u@),
            None => urn_of_file_name(filename@) is None,
        },
{
    let cs = chars_of(filename);
    let n = cs.len();
    if n < 6 {
        return None;
    }
    let s = n - 6;
    if !(cs[s] == '.' && cs[s + 1] == 'a' && cs[s + 2] == 'u' && cs[s + 3] == 'd' && cs[s + 4]
        == 'i' && cs[s + 5] == 'o') {
        proof {
            if strip_audio_ext(filename@) is Some {
                let tail = filename@.subrange(s as int, n as int);
                assert(tail[0] == audio_ext()[0]);
                assert(tail[1] == audio_ext()[1]);
                assert(tail[2] == audio_ext()[2]);
                assert(tail[3] == audio_ext()[3]);
                assert(tail[4] == audio_ext()[4]);
                assert(tail[5] == audio_ext()[5]);
            }
        }
        return None;
    }
    assert(filename@.subrange(s as int, n as int) =~= audio_ext());
    let mut out = String::new();
    let mut i: usize = 0;
    while i < s
        invariant
            i <= s,
            s < n,
            n == cs@.len(),
            cs@ == filename@,
            out@ == replace_char(cs@.subrange(0, i as int), '_', ':'),
        decreases s - i,
    {
        let c = cs[i];
        push_char(&mut out, if c == '_' { ':' } else { c });
        proof {
            assert(cs@.subrange(0, i + 1) =~= cs@.subrange(0, i as int).push(c));
        }
        i = i + 1;
    }
    Some(out)
}


/// An ID3 tag (`ID3`), which opens most MP3 files.
pub open spec fn has_id3_tag(d: Seq<u8>) -> bool {
    d[0] == 0x49u8 && d[1] == 0x44u8 && d[2] == 0x33u8
}

/// An MPEG frame sync (eleven set bits), which opens raw MP3 and ADTS AAC.
pub open spec fn has_mpeg_sync(d: Seq<u8>) -> bool {
    d[0] == 0xffu8 && (d[1] & 0xe0u8) == 0xe0u8
}

/// An `ftyp` box at offset 4, which opens MP4/AAC files.
pub open spec fn has_ftyp_box(d: Seq<u8>) -> bool {
    d.len() >= 8 && d[4] == 0x66u8 && d[5] == 0x74u8 && d[6] == 0x79u8 && d[7] == 0x70u8
}

/// The `OggS` capture pattern of an Ogg stream.
pub open spec fn has_ogg_magic(d: Seq<u8>) -> bool {
    d[0] == 0x4fu8 && d[1] == 0x67u8 && d[2] == 0x67u8 && d[3] == 0x53u8
}

/// The `RIFF` header of a WAV file.
pub open spec fn has_riff_magic(d: Seq<u8>) -> bool {
    d[0] == 0x52u8 && d[1] == 0x49u8 && d[2] == 0x46u8 && d[3] == 0x46u8
}

/// The `fLaC` marker of a FLAC stream.
pub open spec fn has_flac_magic(d: Seq<u8>) -> bool {
    d[0] == 0x66u8 && d[1] == 0x4cu8 && d[2] == 0x61u8 && d[3] == 0x43u8
}

/// Data that is long enough and opens with the signature of an audio
/// format that playback understands.
pub open spec fn looks_like_audio(d: Seq<u8>) -> bool {
    &&& d.len() >= MIN_AUDIO_SIZE
    &&& {
        ||| has_id3_tag(d)
        ||| has_mpeg_sync(d)
        ||| has_ftyp_box(d)
        ||| has_ogg_magic(d)
        ||| has_riff_magic(d)
        ||| has_flac_magic(d)
    }
}

/// Data is taken for audio exactly where it is at least 8192 bytes long and
/// opens with one of the signatures, written out byte for byte: `ID3`, an
/// MPEG frame sync (0xff, then three set bits), `ftyp` at offset 4, `OggS`,
/// `RIFF` or `fLaC`.
pub proof fn lemma_audio_signatures(d: Seq<u8>)
    requires
        d.len() >= 8,
    ensures
        looks_like_audio(d) <==> d.len() >= 8192 && {
            ||| d.subrange(0, 3) == seq![73u8, 68u8, 51u8]
            ||| d[0] == 255u8 && d[1] >= 224u8
            ||| d.subrange(4, 8) == seq![102u8, 116u8, 121u8, 112u8]
            ||| d.subrange(0, 4) == seq![79u8, 103u8, 103u8, 83u8]
            ||| d.subrange(0, 4) == seq![82u8, 73u8, 70u8, 70u8]
            ||| d.subrange(0, 4) == seq![102u8, 76u8, 97u8, 67u8]
        },
{
    let b1 = d[1];
    assert((b1 & 0xe0u8) == 0xe0u8 <==> b1 >= 224u8) by (bit_vector);
    if d.subrange(0, 3) == seq![73u8, 68u8, 51u8] {
        assert(d[0] == d.subrange(0, 3)[0] && d[1] == d.subrange(0, 3)[1] && d[2] == d.subrange(0, 3)[2]);
    }
    if has_id3_tag(d) {
        assert(d.subrange(0, 3) =~= seq![73u8, 68u8, 51u8]);
    }
    let f = d.subrange(4, 8);
    if f == seq![102u8, 116u8, 121u8, 112u8] {
        assert(d[4] == f[0] && d[5] == f[1] && d[6] == f[2] && d[7] == f[3]);
    }
    if has_ftyp_box(d) {
        assert(f =~= seq![102u8, 116u8, 121u8, 112u8]);
    }
    let h = d.subrange(0, 4);
    if h == seq![79u8, 103u8, 103u8, 83u8] || h == seq![82u8, 73u8, 70u8, 70u8] || h == seq![
        102u8,
        76u8,
        97u8,
        67u8,
    ] {
        assert(d[0] == h[0] && d[1] == h[1] && d[2] == h[2] && d[3] == h[3]);
    }
    if has_ogg_magic(d) {
        assert(h =~= seq![79u8, 103u8, 103u8, 83u8]);
    }
    if has_riff_magic(d) {
        assert(h =~= seq![82u8, 73u8, 70u8, 70u8]);
    }
    if has_flac_magic(d) {
        assert(h =~= seq![102u8, 76u8, 97u8, 67u8]);
    }
}

/// An HTML page (one that opens with `<!doctype` or `<html`), whatever its
/// length, is never taken for audio.
pub proof fn lemma_html_is_not_audio(d: Seq<u8>)
    requires
        d.len() >= 9,
        d.subrange(0, 9) == seq![60u8, 33u8, 100u8, 111u8, 99u8, 116u8, 121u8, 112u8, 101u8]
            || d.subrange(0, 5) == seq![60u8, 104u8, 116u8, 109u8, 108u8],
    ensures
        !looks_like_audio(d),
{
    let a = d.subrange(0, 9);
    let b = d.subrange(0, 5);
    if a == seq![60u8, 33u8, 100u8, 111u8, 99u8, 116u8, 121u8, 112u8, 101u8] {
        assert(d[0] == a[0] && d[4] == a[4]);
    } else {
        assert(d[0] == b[0] && d[4] == b[4]);
    }
}

/// Checks downloaded bytes by their magic bytes before they are cached.
pub fn is_valid_audio(data: &[u8]) -> (ok: bool)
    ensures
        ok == looks_like_audio(data@),
{
    if data.len() < MIN_AUDIO_SIZE as usize {
        return false;
    }
    if data[0] == 0x49 && data[1] == 0x44 && data[2] == 0x33 {
        return true;
    }
    if data[0] == 0xff && (data[1] & 0xe0) == 0xe0 {
        return true;
    }
    if data.len() >= 8 && data[4] == 0x66 && data[5] == 0x74 && data[6] == 0x79 && data[7] == 0x70 {
        return true;
    }
    if data[0] == 0x4f && data[1] == 0x67 && data[2] == 0x67 && data[3] == 0x53 {
        return true;
    }
    if data[0] == 0x52 && data[1] == 0x49 && data[2] == 0x46 && data[3] == 0x46 {
        return true;
    }
    if data[0] == 0x66 && data[1] == 0x4c && data[2] == 0x61 && data[3] == 0x43 {
        return true;
    }
    false
}

/// Whether a cache file of this length (`None` where it is missing) holds
/// a complete track.
pub fn is_cached_len(len: Option<u64>) -> (cached: bool)
    ensures
        cached == (len matches Some(l) && l >= MIN_AUDIO_SIZE),
{
    match len {
        Some(l) => l >= MIN_AUDIO_SIZE,
        None => false,
    }
}

/// A track whose id holds no `_` is found again from its cache file name.
pub proof fn lemma_urn_survives_file_name(urn: Seq<char>)
    requires
        !urn.contains('_'),
    ensures
        urn_of_file_name(cache_file_name(urn)) == Some(urn),
{
    let name = cache_file_name(urn);
    let stem = replace_char(urn, ':', '_');
    assert(name.subrange(name.len() - 6, name.len() as int) =~= audio_ext());
    assert(name.subrange(0, name.len() - 6) =~= stem);
    assert forall|i: int| 0 <= i < urn.len() implies replace_char(stem, '_', ':')[i] == urn[i] by {
        if urn[i] == '_' {
            assert(urn.contains('_'));
        }
    }
    assert(replace_char(stem, '_', ':') =~= urn);
}

/// A cache file name whose stem holds no `:` is the file name of the track
/// that it stands for.
pub proof fn lemma_file_name_survives_urn(name: Seq<char>)
    requires
        strip_audio_ext(name) is Some,
        !strip_audio_ext(name)->0.contains(':'),
    ensures
        urn_of_file_name(name) is Some,
        cache_file_name(urn_of_file_name(name)->0) == name,
{
    let stem = strip_audio_ext(name)->0;
    let urn = replace_char(stem, '_', ':');
    assert forall|i: int| 0 <= i < stem.len() implies replace_char(urn, ':', '_')[i] == stem[i] by {
        if stem[i] == ':' {
            assert(stem.contains(':'));
        }
    }
    assert(replace_char(urn, ':', '_') =~= stem);
    assert(cache_file_name(urn) =~= name);
}

} // verus!
