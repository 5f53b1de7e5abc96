pub mod fftw;
