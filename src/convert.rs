//! The batch encode driver: which files are converted, and to where.

use vstd::prelude::*;
use crate::error::SyncError;
use crate::paths::{lemma_last_index_bounds, file_name, flac_ext, last_index_of, name_start, replace_extension, with_extension};
use crate::text::same_text;

verus! {

pub open spec fn wav_suffix() -> Seq<char> {
    seq!['.', 'w', 'a', 'v']
}

/// Whether the path ends in `.wav`.
pub open spec fn is_wav(p: Seq<char>) -> bool {
    wav_suffix().is_suffix_of(p)
}

pub open spec fn wav_filter(files: Seq<Seq<char>>) -> Seq<Seq<char>> {
    files.filter(|p: Seq<char>| is_wav(p))
}

/// The files handed to the encoder.
#[derive(Debug)]
pub struct ConvertToFlac {
    pub files: Vec<String>,
}

/// One run of the encoder: from a WAV file to the FLAC file beside it.
#[derive(Debug)]
pub struct Conversion {
    pub input: String,
    pub output: String,
}

fn ends_with_wav(p: &str) -> (r: bool)
    ensures
        r == is_wav(p@),
{
    let n = p.unicode_len();
    if n < 4 {
        return false;
    }
    proof {
        reveal_strlit(".wav");
    }
    let tail = p.substring_char(n - 4, n);
    let r = same_text(tail, ".wav");
    assert(".wav"@ =~= wav_suffix());
    r
}

impl ConvertToFlac {
    /// The files whose names end in `.wav`, in their order.
    pub fn wav_paths(&self) -> (r: Vec<String>)
        ensures
            r.deep_view() == wav_filter(self.files.deep_view()),
    {
        let ghost all = self.files.deep_view();
        let mut r: Vec<String> = Vec::new();
        let mut i: usize = 0;
        assert(all.subrange(0, 0) =~= Seq::<Seq<char>>::empty());
        assert(r.deep_view() =~= wav_filter(all.subrange(0, 0)));
        while i < self.files.len()
            invariant
                i <= self.files.len(),
                all == self.files.deep_view(),
                r.deep_view() == wav_filter(all.subrange(0, i as int)),
            decreases self.files.len() - i,
        {
            let ghost before = r.deep_view();
            proof {
                reveal(Seq::filter);
                assert(all.subrange(0, i + 1).drop_last() =~= all.subrange(0, i as int));
                assert(all.subrange(0, i + 1).last() == self.files[i as int]@);
            }
            if ends_with_wav(self.files[i].as_str()) {
                r.push(self.files[i].clone());
                assert(r.deep_view() =~= before.push(self.files[i as int]@));
            }
            i = i + 1;
        }
        assert(all.subrange(0, self.files.len() as int) =~= all);
        r
    }

    /// What the encoder is to do: for each WAV file, in order, the same
    /// path with the extension `flac`. Nothing is converted when the encoder
    /// cannot run or no file is a WAV file.
    pub fn conversion_plan(&self, encoder_available: bool) -> (r: Result<Vec<Conversion>, SyncError>)
        ensures
            !encoder_available ==> r matches Err(SyncError::FfmpegNotInstalled),
            encoder_available && wav_filter(self.files.deep_view()).len() == 0 ==> r matches Err(
                SyncError::NoWavInput,
            ),
            encoder_available && wav_filter(self.files.deep_view()).len() > 0 ==> (r matches Ok(v)
                && v.len() == wav_filter(self.files.deep_view()).len() && forall|i: int|
                0 <= i < v.len() ==> (#[trigger] v[i]).input@ == wav_filter(
                    self.files.deep_view(),
                )[i] && v[i].output@ == with_extension(
                    wav_filter(self.files.deep_view())[i],
                    flac_ext(),
                )),
    {
        if !encoder_available {
            return Err(SyncError::FfmpegNotInstalled);
        }
        let wavs = self.wav_paths();
        if wavs.len() == 0 {
            return Err(SyncError::NoWavInput);
        }
        proof {
            reveal_strlit("flac");
            assert("flac"@ =~= flac_ext());
        }
        let mut plan: Vec<Conversion> = Vec::new();
        let mut i: usize = 0;
        while i < wavs.len()
            invariant
                i <= wavs.len(),
                plan.len() == i,
                "flac"@ == flac_ext(),
                wavs.deep_view() == wav_filter(self.files.deep_view()),
                forall|k: int| 0 <= k < i ==> (#[trigger] plan[k]).input@ == wavs.deep_view()[k]
                    && plan[k].output@ == with_extension(wavs.deep_view()[k], flac_ext()),
            decreases wavs.len() - i,
        {
            let output = replace_extension(wavs[i].as_str(), "flac");
            let input = wavs[i].clone();
            assert(wavs.deep_view()[i as int] == wavs[i as int]@);
            let ghost before = plan@;
            plan.push(Conversion { input, output });
            assert(forall|k: int| 0 <= k < i ==> plan[k] == before[k]);
            i = i + 1;
        }
        Ok(plan)
    }
}

/// A `.wav` file whose name is more than the extension is converted to the
/// same path with `.flac` in place of `.wav`: same directory, same stem.
pub proof fn lemma_wav_to_flac(p: Seq<char>)
    requires
        is_wav(p),
        file_name(p).len() > 4,
    ensures
        with_extension(p, flac_ext()) == p.subrange(0, p.len() - 4) + seq!['.'] + flac_ext(),
{
    let n = p.len();
    assert(p.subrange(n - 4, n as int) == wav_suffix());
    assert(p[n - 4] == '.' && p[n - 3] == 'w' && p[n - 2] == 'a' && p[n - 1] == 'v') by {
        assert(p[n - 4] == p.subrange(n - 4, n as int)[0]);
        assert(p[n - 3] == p.subrange(n - 4, n as int)[1]);
        assert(p[n - 2] == p.subrange(n - 4, n as int)[2]);
        assert(p[n - 1] == p.subrange(n - 4, n as int)[3]);
    }
    let q1 = p.drop_last();
    let q2 = q1.drop_last();
    let q3 = q2.drop_last();
    assert(q1.last() == p[n - 2]);
    assert(q2.last() == p[n - 3]);
    assert(q3.last() == p[n - 4]);
    assert(last_index_of(q3, '.') == n - 4);
    assert(last_index_of(q2, '.') == n - 4);
    assert(last_index_of(q1, '.') == n - 4);
    assert(last_index_of(p, '.') == n - 4);
    lemma_last_index_bounds(p, '/');
    assert(name_start(p) < n - 4);
}

} // verus!
