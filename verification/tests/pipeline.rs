use std::f64::consts::PI;

use asap_rs::fft::bits::next_power_of_two;
use asap_rs::fft::bluestein::{chirp_kernel, chirp_phases, zero_padded};
use asap_rs::fft::convolution::{complex_operands, real_operands};
use asap_rs::fft::radix2::{bit_reverse_permute, Schedule};
use asap_rs::fft::transform::{plan, Plan};
use asap_rs::smoothing::adaptive_smoothing::{
    lag_limit, reduction_window, Finding, Probe, Search,
};
use asap_rs::smoothing::sma::SlidingWindow;
use asap_rs::statistics::rank::Rank;
use asap_rs::utils::acf::ACF;

// The numeric kernels, driven by the plans of the library.

fn transform(real: &mut [f64], imag: &mut [f64]) -> Result<(), String> {
    match plan(real.len(), imag.len()) {
        Err(_) => Err("Mismatched lengths".to_string()),
        Ok(Plan::Empty) => Ok(()),
        Ok(Plan::Radix2 { levels }) => {
            transform_radix2(real, imag, levels);
            Ok(())
        }
        Ok(Plan::Bluestein { padded }) => transform_bluestein(real, imag, padded),
    }
}

fn inverse_transform(real: &mut [f64], imag: &mut [f64]) -> Result<(), String> {
    transform(imag, real)
}

fn permute(values: &mut [f64], levels: u32) {
    let mut moved = values.to_vec();
    bit_reverse_permute(&mut moved, levels);
    values.copy_from_slice(&moved);
}

fn transform_radix2(real: &mut [f64], imag: &mut [f64], levels: u32) {
    let n = real.len();
    let cos_table: Vec<f64> = (0..n / 2).map(|i| (2.0 * PI * i as f64 / n as f64).cos()).collect();
    let sin_table: Vec<f64> = (0..n / 2).map(|i| (2.0 * PI * i as f64 / n as f64).sin()).collect();
    permute(real, levels);
    permute(imag, levels);
    let mut schedule = Schedule::new(levels);
    while let Some(b) = schedule.next() {
        let tpre = real[b.lower] * cos_table[b.twiddle] + imag[b.lower] * sin_table[b.twiddle];
        let tpim = -real[b.lower] * sin_table[b.twiddle] + imag[b.lower] * cos_table[b.twiddle];
        real[b.lower] = real[b.upper] - tpre;
        imag[b.lower] = imag[b.upper] - tpim;
        real[b.upper] += tpre;
        imag[b.upper] += tpim;
    }
}

fn transform_bluestein(real: &mut [f64], imag: &mut [f64], m: usize) -> Result<(), String> {
    let n = real.len();
    let phases = chirp_phases(n);
    let cos_table: Vec<f64> = phases.iter().map(|&j| (PI * j as f64 / n as f64).cos()).collect();
    let sin_table: Vec<f64> = phases.iter().map(|&j| (PI * j as f64 / n as f64).sin()).collect();
    let mut areal = Vec::with_capacity(n);
    let mut aimag = Vec::with_capacity(n);
    for i in 0..n {
        areal.push(real[i] * cos_table[i] + imag[i] * sin_table[i]);
        aimag.push(-real[i] * sin_table[i] + imag[i] * cos_table[i]);
    }
    let areal = zero_padded(&areal, m, 0.0);
    let aimag = zero_padded(&aimag, m, 0.0);
    let breal = chirp_kernel(&cos_table, m, 0.0);
    let bimag = chirp_kernel(&sin_table, m, 0.0);
    let mut creal = vec![0.0; m];
    let mut cimag = vec![0.0; m];
    convolve_complex(&areal, &aimag, &breal, &bimag, &mut creal, &mut cimag)?;
    for i in 0..n {
        real[i] = creal[i] * cos_table[i] + cimag[i] * sin_table[i];
        imag[i] = -creal[i] * sin_table[i] + cimag[i] * cos_table[i];
    }
    Ok(())
}

fn convolve_real(x: &[f64], y: &[f64]) -> Result<Vec<f64>, String> {
    let n = real_operands(x.len(), y.len()).map_err(|_| "Mismatched lengths".to_string())?;
    let mut out = vec![0.0; n];
    let zeros_in = vec![0.0; n];
    let mut zeros_out = vec![0.0; n];
    convolve_complex(x, &zeros_in, y, &zeros_in, &mut out, &mut zeros_out)?;
    Ok(out)
}

fn convolve_complex(
    xreal: &[f64],
    ximag: &[f64],
    yreal: &[f64],
    yimag: &[f64],
    outreal: &mut [f64],
    outimag: &mut [f64],
) -> Result<(), String> {
    let n = complex_operands(
        xreal.len(),
        ximag.len(),
        yreal.len(),
        yimag.len(),
        outreal.len(),
        outimag.len(),
    )
    .map_err(|_| "Mismatched lengths".to_string())?;
    let mut xr = xreal.to_vec();
    let mut xi = ximag.to_vec();
    let mut yr = yreal.to_vec();
    let mut yi = yimag.to_vec();
    transform(&mut xr, &mut xi)?;
    transform(&mut yr, &mut yi)?;
    for i in 0..n {
        let temp = xr[i] * yr[i] - xi[i] * yi[i];
        xi[i] = xi[i] * yr[i] + xr[i] * yi[i];
        xr[i] = temp;
    }
    inverse_transform(&mut xr, &mut xi)?;
    for i in 0..n {
        outreal[i] = xr[i] / n as f64;
        outimag[i] = xi[i] / n as f64;
    }
    Ok(())
}

fn sma(data: &[f64], range: usize, slide: usize) -> Vec<f64> {
    let mut window = SlidingWindow::new(range, slide);
    let mut sum = 0.0;
    let mut values = Vec::new();
    for &value in data {
        let value = if value.is_nan() { 0.0 } else { value };
        let step = window.step();
        if let Some(count) = step.emit {
            values.push(sum / count as f64);
            for &leaving in &data[step.evict_from..step.evict_to] {
                sum -= leaving;
            }
        }
        sum += value;
    }
    if let Some(count) = window.finish() {
        values.push(sum / count as f64);
    }
    values
}

fn mean(values: &[f64]) -> f64 {
    values.iter().sum::<f64>() / values.len() as f64
}

fn deviation(values: &[f64]) -> f64 {
    let m = mean(values);
    (values.iter().map(|&x| (x - m).powi(2)).sum::<f64>() / values.len() as f64).sqrt()
}

fn kurtosis(values: &[f64]) -> f64 {
    let m = mean(values);
    let u4: f64 = values.iter().map(|&x| (x - m).powi(4)).sum();
    let variance: f64 = values.iter().map(|&x| (x - m).powi(2)).sum();
    values.len() as f64 * u4 / variance.powi(2)
}

fn roughness(values: &[f64]) -> f64 {
    let diffs: Vec<f64> = values.windows(2).map(|w| w[1] - w[0]).collect();
    deviation(&diffs)
}

fn rank(x: f64) -> Rank {
    if x.is_nan() {
        return Rank::Nan;
    }
    let bits = (x + 0.0).to_bits() as i64;
    Rank::Number(if bits < 0 { bits ^ i64::MAX } else { bits })
}

fn unrank(r: Rank) -> f64 {
    match r {
        Rank::Nan => f64::NAN,
        Rank::Number(key) => f64::from_bits((if key < 0 { key ^ i64::MAX } else { key }) as u64),
    }
}

fn correlations(values: &[f64], max_lag: usize) -> Vec<f64> {
    let m = mean(values);
    let len = next_power_of_two(values.len());
    let centred: Vec<f64> = values.iter().map(|&v| v - m).collect();
    let mut fft_real = zero_padded(&centred, len, 0.0);
    let mut fft_imag = vec![0.0; len];
    transform(&mut fft_real, &mut fft_imag).unwrap();
    for i in 0..len {
        fft_real[i] = fft_real[i].powi(2) + fft_imag[i].powi(2);
        fft_imag[i] = 0.0;
    }
    inverse_transform(&mut fft_real, &mut fft_imag).unwrap();
    let mut correlations = vec![0.0; max_lag];
    for i in 1..max_lag {
        correlations[i] = fft_real[i] / fft_real[0];
    }
    correlations
}

fn redundant(corr_lag: f64, lag: usize, corr_window: f64, window_size: usize) -> bool {
    (1.0 - corr_lag).sqrt() * window_size as f64 > (1.0 - corr_window).sqrt() * lag as f64
}

fn lower_bound(lag: usize, corr_lag: f64, max_acf: f64) -> usize {
    (lag as f64 * ((max_acf - 1.0) / (corr_lag - 1.0)).sqrt()).round() as usize
}

fn measure(data: &[f64], window: usize, bound: usize) -> Finding {
    let smoothed = sma(data, window, 1);
    Finding::Measured {
        kurtosis: rank(kurtosis(&smoothed)),
        roughness: rank(roughness(&smoothed)),
        bound,
    }
}

// The signal as the search sees it, the window it settles on, and the result.
fn smooth_in_steps(data: &[f64], resolution: usize) -> (Vec<f64>, usize, Vec<f64>) {
    let mut data = data.to_vec();
    if data.last().map_or(false, |&x| x.is_nan()) {
        data.pop();
    }
    if let Some(window) = reduction_window(data.len(), resolution) {
        data = sma(&data, window, window);
    }
    let corr = correlations(&data, lag_limit(data.len()));
    let mut acf = ACF::new(corr.iter().map(|&c| rank(c)).collect());
    let peaks = acf.find_peaks();
    let max_acf = unrank(acf.max_acf);
    let mut search = Search::new(data.len(), peaks, rank(kurtosis(&data)), rank(roughness(&data)));
    loop {
        let finding = match search.probe() {
            Probe::Settled { window_size } => {
                let smoothed = sma(&data, window_size, 1);
                return (data, window_size, smoothed);
            }
            Probe::Peak { lag, window_size } => {
                if redundant(corr[lag], lag, corr[window_size], window_size) {
                    Finding::Redundant
                } else {
                    measure(&data, lag, lower_bound(lag, corr[lag], max_acf))
                }
            }
            Probe::Window { size } => measure(&data, size, 0),
        };
        search.advance(finding);
    }
}

fn smooth(data: &[f64], resolution: usize) -> Vec<f64> {
    smooth_in_steps(data, resolution).2
}

fn noise(seed: &mut u64) -> f64 {
    *seed = seed.wrapping_mul(6364136223846793005).wrapping_add(1442695040888963407);
    (*seed >> 11) as f64 / (1u64 << 53) as f64 - 0.5
}

fn signal(len: usize, seed: u64) -> Vec<f64> {
    let mut seed = seed;
    (0..len).map(|_| 10.0 * noise(&mut seed)).collect()
}

fn seasonal(len: usize, period: f64, seed: u64) -> Vec<f64> {
    let mut seed = seed;
    (0..len)
        .map(|i| 10.0 * (2.0 * PI * i as f64 / period).sin() + 4.0 * noise(&mut seed))
        .collect()
}

fn naive_dft(real: &[f64], imag: &[f64]) -> (Vec<f64>, Vec<f64>) {
    let n = real.len();
    let mut out_re = vec![0.0; n];
    let mut out_im = vec![0.0; n];
    for k in 0..n {
        for j in 0..n {
            let angle = 2.0 * PI * ((j * k) % n) as f64 / n as f64;
            out_re[k] += real[j] * angle.cos() + imag[j] * angle.sin();
            out_im[k] += -real[j] * angle.sin() + imag[j] * angle.cos();
        }
    }
    (out_re, out_im)
}

fn close(a: &[f64], b: &[f64], tolerance: f64) -> bool {
    a.len() == b.len() && a.iter().zip(b).all(|(x, y)| (x - y).abs() <= tolerance)
}

const LENGTHS: [usize; 18] =
    [1, 2, 3, 4, 5, 7, 8, 11, 12, 16, 17, 31, 32, 60, 64, 100, 243, 256];

#[test]
fn transform_round_trip_restores_the_signal() {
    for &n in &LENGTHS {
        let real = signal(n, 7 + n as u64);
        let imag = signal(n, 99 + n as u64);
        let mut re = real.clone();
        let mut im = imag.clone();
        transform(&mut re, &mut im).unwrap();
        inverse_transform(&mut re, &mut im).unwrap();
        let re: Vec<f64> = re.iter().map(|x| x / n as f64).collect();
        let im: Vec<f64> = im.iter().map(|x| x / n as f64).collect();
        assert!(close(&re, &real, 1e-9), "real part, length {}", n);
        assert!(close(&im, &imag, 1e-9), "imaginary part, length {}", n);
    }
}

#[test]
fn transform_matches_the_definition() {
    for &n in &LENGTHS {
        let real = signal(n, 3 + n as u64);
        let imag = signal(n, 5 + n as u64);
        let (want_re, want_im) = naive_dft(&real, &imag);
        let mut re = real.clone();
        let mut im = imag.clone();
        transform(&mut re, &mut im).unwrap();
        assert!(close(&re, &want_re, 1e-8), "real part, length {}", n);
        assert!(close(&im, &want_im, 1e-8), "imaginary part, length {}", n);
    }
}

#[test]
fn transform_of_an_impulse_is_flat() {
    for n in [4usize, 6] {
        let mut re = vec![0.0; n];
        let mut im = vec![0.0; n];
        re[0] = 1.0;
        transform(&mut re, &mut im).unwrap();
        assert!(close(&re, &vec![1.0; n], 1e-12));
        assert!(close(&im, &vec![0.0; n], 1e-12));
    }
}

#[test]
fn transform_of_a_constant_is_an_impulse() {
    let mut re = vec![1.0; 4];
    let mut im = vec![0.0; 4];
    transform(&mut re, &mut im).unwrap();
    assert!(close(&re, &[4.0, 0.0, 0.0, 0.0], 1e-12));
    assert!(close(&im, &[0.0; 4], 1e-12));
}

#[test]
fn transform_of_nothing_does_nothing() {
    let mut re: Vec<f64> = Vec::new();
    let mut im: Vec<f64> = Vec::new();
    assert_eq!(transform(&mut re, &mut im), Ok(()));
    assert!(re.is_empty() && im.is_empty());
}

#[test]
fn transform_refuses_mismatched_lengths() {
    let mut re = vec![1.0, 2.0, 3.0];
    let mut im = vec![0.0, 0.0];
    assert_eq!(transform(&mut re, &mut im), Err("Mismatched lengths".to_string()));
    assert_eq!(inverse_transform(&mut re, &mut im), Err("Mismatched lengths".to_string()));
    assert_eq!(re, vec![1.0, 2.0, 3.0]);
    assert_eq!(im, vec![0.0, 0.0]);
}

#[test]
fn convolve_real_matches_direct_convolution() {
    for n in 1..=16usize {
        let x = signal(n, 11 + n as u64);
        let y = signal(n, 23 + n as u64);
        let mut direct = vec![0.0; n];
        for k in 0..n {
            for j in 0..n {
                direct[k] += x[j] * y[(k + n - j) % n];
            }
        }
        let fast = convolve_real(&x, &y).unwrap();
        assert!(close(&fast, &direct, 1e-9), "length {}", n);
    }
}

#[test]
fn convolve_real_of_small_integers() {
    let out = convolve_real(&[1.0, 2.0, 3.0], &[0.0, 1.0, 0.5]).unwrap();
    assert!(close(&out, &[4.0, 2.5, 2.5], 1e-12));
}

#[test]
fn convolve_refuses_mismatched_lengths() {
    assert_eq!(convolve_real(&[1.0, 2.0], &[1.0]), Err("Mismatched lengths".to_string()));
    let mut out_re = vec![0.0; 2];
    let mut out_im = vec![0.0; 3];
    let two = [0.0, 0.0];
    assert_eq!(
        convolve_complex(&two, &two, &two, &two, &mut out_re, &mut out_im),
        Err("Mismatched lengths".to_string())
    );
}

#[test]
fn sma_of_five_samples() {
    assert_eq!(sma(&[1.0, 2.0, 3.0, 4.0, 5.0], 2, 1), vec![1.5, 2.5, 3.5, 4.5]);
}

#[test]
fn sma_without_overlap() {
    assert_eq!(sma(&[1.0, 3.0, 5.0, 7.0, 9.0, 11.0, 100.0], 2, 2), vec![2.0, 6.0, 10.0]);
}

#[test]
fn sma_with_window_one_is_the_signal() {
    let data = signal(25, 4);
    assert_eq!(sma(&data, 1, 1), data);
}

#[test]
fn sma_of_a_short_signal_is_empty() {
    assert_eq!(sma(&[1.0, 2.0], 3, 1), Vec::<f64>::new());
    assert_eq!(sma(&[], 1, 1), Vec::<f64>::new());
}

#[test]
fn sma_output_length_follows_the_formula() {
    for n in 0..30usize {
        let data = signal(n, n as u64);
        for range in 1..8usize {
            for slide in 1..=range {
                let expected = if n < range { 0 } else { (n - range) / slide + 1 };
                assert_eq!(sma(&data, range, slide).len(), expected);
            }
        }
    }
}

#[test]
fn sma_counts_a_missing_sample_as_zero() {
    let out = sma(&[f64::NAN, 2.0, 4.0], 2, 1);
    assert_eq!(out.len(), 2);
    assert_eq!(out[0], 1.0);
    assert!(out[1].is_nan());
    assert_eq!(sma(&[1.0, f64::NAN, 4.0], 3, 1), vec![5.0 / 3.0]);
}

#[test]
fn metrics_of_four_samples() {
    let values = [1.0, 2.0, 3.0, 4.0];
    assert_eq!(mean(&values), 2.5);
    assert_eq!(deviation(&values), 1.25f64.sqrt());
    assert!((kurtosis(&values) - 1.64).abs() < 1e-12);
    assert!((roughness(&[1.0, 2.0, 4.0, 7.0]) - (2.0f64 / 3.0).sqrt()).abs() < 1e-12);
}

#[test]
fn kurtosis_of_a_constant_is_undefined() {
    assert!(kurtosis(&[3.0; 8]).is_nan());
}

#[test]
fn autocorrelation_of_a_wave_peaks_at_its_period() {
    let data: Vec<f64> = (0..512).map(|i| (2.0 * PI * i as f64 / 16.0).sin()).collect();
    let corr = correlations(&data, 51);
    let mut acf = ACF::new(corr.iter().map(|&c| rank(c)).collect());
    assert_eq!(acf.find_peaks(), vec![16, 32, 48]);
    assert_eq!(unrank(acf.max_acf), corr[16]);
    assert!(corr[16] > 0.9);
}

#[test]
fn harmonic_test_compares_decay_per_lag() {
    assert!(redundant(0.19, 2, 0.91, 1));
    assert!(!redundant(0.75, 4, 0.36, 2));
    assert!(!redundant(0.75, 2, 0.0, 1));
    assert!(!redundant(f64::NAN, 2, 0.5, 1));
}

#[test]
fn lower_bound_scales_the_lag() {
    assert_eq!(lower_bound(9, 0.0, 0.75), 5);
    assert_eq!(lower_bound(10, 0.5, 0.5), 10);
    assert_eq!(lower_bound(10, 0.875, 0.5), 20);
    assert_eq!(lower_bound(7, 1.0, 0.5), 0);
    assert_eq!(lower_bound(7, f64::NAN, 0.5), 0);
}

#[test]
fn smooth_keeps_a_constant_signal() {
    for len in 0..9usize {
        let data = vec![5.0; len];
        assert_eq!(smooth(&data, 10), data);
    }
    let long = vec![5.0; 45];
    let (seen, window, out) = smooth_in_steps(&long, 100);
    assert!(correlations(&seen, 4)[1].is_nan());
    assert_eq!(window, 1);
    assert_eq!(out, long);
    assert_eq!(smooth(&vec![5.0; 20], 4), vec![5.0; 4]);
    let out = smooth(&vec![0.1; 1000], 50);
    assert!(out.len() >= 50 && out.len() < 100);
    assert!(out.iter().all(|x| (x - 0.1).abs() < 1e-12));
}

#[test]
fn smooth_of_the_sample_signal() {
    let data = [1.0, 3.2, 2.0, 3.0, 4.0, 5.0, 4.0, 3.0, 2.0, 1.0];
    let out = smooth(&data, 2);
    assert!(out.len() <= data.len());
    assert!(roughness(&out) < roughness(&data));
    assert!(close(&out, &[2.64, 3.0], 1e-12));
}

#[test]
fn smooth_drops_a_trailing_nan() {
    for resolution in 1..5usize {
        assert_eq!(smooth(&[1.0, 2.0, 3.0, f64::NAN], resolution), smooth(&[1.0, 2.0, 3.0], resolution));
    }
    let data = seasonal(300, 24.0, 8);
    let mut open = data.clone();
    open.push(f64::NAN);
    assert_eq!(smooth(&open, 400), smooth(&data, 400));
}

#[test]
fn smooth_never_loses_kurtosis() {
    for seed in 0..20u64 {
        let data = seasonal(200 + 37 * seed as usize, 12.0 + seed as f64, seed);
        let (seen, window, out) = smooth_in_steps(&data, 1000);
        assert_eq!(out, sma(&seen, window, 1));
        assert!(window == 1 || kurtosis(&out) >= kurtosis(&seen), "seed {}", seed);
        assert!(roughness(&out) <= roughness(&seen), "seed {}", seed);
    }
}

#[test]
fn smooth_finds_a_window_in_seasonal_data() {
    let data = seasonal(2000, 50.0, 42);
    let (seen, window, out) = smooth_in_steps(&data, 4000);
    assert_eq!(seen, data);
    assert!(window > 1);
    assert_eq!(out.len(), data.len() - window + 1);
    assert!(roughness(&out) < roughness(&data));
}

#[test]
fn smooth_shortens_a_long_signal_first() {
    let data = seasonal(5000, 100.0, 1);
    let (seen, _, out) = smooth_in_steps(&data, 100);
    assert_eq!(seen.len(), 100);
    assert!(out.len() <= seen.len());
}

// The same computations written out as plain loops, to compare against.

fn looped_sma(data: &[f64], range: usize, slide: usize) -> Vec<f64> {
    let mut window_start = 0;
    let mut sum = 0.0;
    let mut count = 0usize;
    let mut values = Vec::new();
    for (i, &value) in data.iter().enumerate() {
        let value = if value.is_nan() { 0.0 } else { value };
        if i - window_start >= range {
            values.push(sum / count as f64);
            let old_start = window_start;
            while window_start < data.len() && window_start - old_start < slide {
                sum -= data[window_start];
                count -= 1;
                window_start += 1;
            }
        }
        sum += value;
        count += 1;
    }
    if count == range {
        values.push(sum / count as f64);
    }
    values
}

fn looped_peaks(correlations: &[f64], threshold: f64) -> (Vec<usize>, f64) {
    let mut peaks = Vec::new();
    let mut max_acf = 0.0;
    if correlations.len() > 1 {
        let mut positive = correlations[1] > correlations[0];
        let mut max = 1;
        for i in 2..correlations.len() {
            if !positive && correlations[i] > correlations[i - 1] {
                max = i;
                positive = !positive;
            } else if positive && correlations[i] > correlations[max] {
                max = i;
            } else if positive && correlations[i] < correlations[i - 1] {
                if max > 1 && correlations[max] > threshold {
                    peaks.push(max);
                    if correlations[max] > max_acf {
                        max_acf = correlations[max];
                    }
                }
                positive = !positive;
            }
        }
    }
    if peaks.len() <= 1 {
        peaks = (2..correlations.len()).collect();
    }
    (peaks, max_acf)
}

fn looped_search(data: &[f64], peaks: &[usize], corr: &[f64], max_acf: f64) -> usize {
    let original_kurt = kurtosis(data);
    let mut min_obj = roughness(data);
    let mut window_size = 1;
    let mut lb = 1;
    let mut largest_feasible: Option<usize> = None;
    let mut tail = (data.len() / 10).max(1);

    for (i, &w) in peaks.iter().rev().enumerate() {
        if w < lb || w == 1 {
            break;
        } else if redundant(corr[w], w, corr[window_size], window_size) {
            continue;
        }
        let smoothed = sma(data, w, 1);
        if kurtosis(&smoothed) >= original_kurt {
            let rough = roughness(&smoothed);
            if rough < min_obj {
                min_obj = rough;
                window_size = w;
            }
            lb = lb.max(lower_bound(w, corr[w], max_acf));
            if largest_feasible.is_none() {
                largest_feasible = Some(i);
            }
        }
    }

    if let Some(i) = largest_feasible {
        let walk: Vec<usize> = peaks.iter().rev().copied().collect();
        if i + 1 < walk.len() {
            tail = walk[i + 1];
        }
        lb = lb.max(walk[i] + 1);
    }

    let mut head = lb;
    while head <= tail {
        let w = (head + tail) / 2;
        let smoothed = sma(data, w, 1);
        if kurtosis(&smoothed) >= original_kurt {
            let rough = roughness(&smoothed);
            if rough < min_obj {
                window_size = w;
                min_obj = rough;
            }
            head = w + 1;
        } else {
            tail = w - 1;
        }
    }
    window_size
}

fn same_bits(a: &[f64], b: &[f64]) -> bool {
    a.len() == b.len() && a.iter().zip(b).all(|(x, y)| x.to_bits() == y.to_bits())
}

#[test]
fn sma_agrees_with_the_plain_loop() {
    for n in 0..24usize {
        let mut data = signal(n, 77 + n as u64);
        if n > 5 {
            data[3] = f64::NAN;
        }
        if n > 12 {
            data[11] = f64::NAN;
        }
        for range in 0..7usize {
            for slide in 0..=range {
                assert!(
                    same_bits(&sma(&data, range, slide), &looped_sma(&data, range, slide)),
                    "n {} range {} slide {}",
                    n,
                    range,
                    slide
                );
            }
        }
    }
}

#[test]
fn peaks_agree_with_the_plain_loop() {
    let mut seed = 5u64;
    for len in 0..80usize {
        let mut values: Vec<f64> = (0..len).map(|_| 2.0 * noise(&mut seed)).collect();
        if len % 7 == 3 {
            values[len / 2] = f64::NAN;
        }
        if len % 5 == 1 {
            values[len - 1] = values[len / 3];
        }
        let (peaks, max_acf) = looped_peaks(&values, 0.2);
        let mut acf = ACF::new(values.iter().map(|&c| rank(c)).collect());
        assert_eq!(acf.find_peaks(), peaks, "length {}", len);
        assert_eq!(unrank(acf.max_acf), max_acf, "length {}", len);
    }
}

#[test]
fn search_agrees_with_the_plain_loop() {
    for seed in 0..40u64 {
        let len = 150 + 61 * seed as usize;
        let data = if seed % 3 == 0 {
            signal(len, seed)
        } else {
            seasonal(len, 9.0 + 2.5 * seed as f64, seed)
        };
        let corr = correlations(&data, lag_limit(data.len()));
        let (peaks, max_acf) = looped_peaks(&corr, 0.2);
        let (_, window, _) = smooth_in_steps(&data, 100_000);
        assert_eq!(window, looped_search(&data, &peaks, &corr, max_acf), "seed {}", seed);
    }
}
