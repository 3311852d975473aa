use vstd::prelude::*;

verus! {

/// A `cudnnActivationBackward` call.
pub struct CudnnActivationBackwardS {
    pub calling_tid: u64,
    pub wall_start: u64,
    pub wall_end: u64,
    pub id: u64,
    pub cudnn_handle: u64,
    pub input_vector: [u64; 10],
    pub output_vector: [u64; 1],
}

/// A `cudnnActivationForward` call.
pub struct CudnnActivationForwardS {
    pub calling_tid: u64,
    pub wall_start: u64,
    pub wall_end: u64,
    pub id: u64,
    pub cudnn_handle: u64,
    pub input_vector: [u64; 6],
    pub output_vector: [u64; 1],
}

/// A `cudnnAddTensor` call.
pub struct CudnnAddTensorS {
    pub calling_tid: u64,
    pub wall_start: u64,
    pub wall_end: u64,
    pub id: u64,
    pub cudnn_handle: u64,
    pub input_vector: [u64; 6],
    pub output_vector: [u64; 1],
}

/// A `cudnnConvolutionBackwardBias` call.
pub struct CudnnConvolutionBackwardBiasS {
    pub calling_tid: u64,
    pub wall_start: u64,
    pub wall_end: u64,
    pub id: u64,
    pub cudnn_handle: u64,
    pub input_vector: [u64; 5],
    pub output_vector: [u64; 1],
}

/// A `cudnnConvolutionBackwardData` call.
pub struct CudnnConvolutionBackwardDataS {
    pub calling_tid: u64,
    pub wall_start: u64,
    pub wall_end: u64,
    pub id: u64,
    pub cudnn_handle: u64,
    pub input_vector: [u64; 12],
    pub output_vector: [u64; 1],
}

/// A `cudnnConvolutionBackwardFilter` call.
pub struct CudnnConvolutionBackwardFilterS {
    pub calling_tid: u64,
    pub wall_start: u64,
    pub wall_end: u64,
    pub id: u64,
    pub cudnn_handle: u64,
    pub input_vector: [u64; 12],
    pub output_vector: [u64; 1],
}

/// A `cudnnConvolutionForward` call.
pub struct CudnnConvolutionForwardS {
    pub calling_tid: u64,
    pub wall_start: u64,
    pub wall_end: u64,
    pub id: u64,
    pub cudnn_handle: u64,
    pub input_vector: [u64; 12],
    pub output_vector: [u64; 1],
}

/// A `cudnnCreate` call.
pub struct CudnnCreateS {
    pub calling_tid: u64,
    pub wall_start: u64,
    pub wall_end: u64,
    pub id: u64,
    pub cudnn_handle: u64,
}

/// A `cudnnDestroy` call.
pub struct CudnnDestroyS {
    pub calling_tid: u64,
    pub wall_start: u64,
    pub wall_end: u64,
    pub id: u64,
    pub cudnn_handle: u64,
}

/// A `cudnnPoolingForward` call.
pub struct CudnnPoolingForwardS {
    pub calling_tid: u64,
    pub wall_start: u64,
    pub wall_end: u64,
    pub id: u64,
    pub cudnn_handle: u64,
    pub input_vector: [u64; 6],
    pub output_vector: [u64; 1],
}

/// A `cudnnSoftmaxForward` call.
pub struct CudnnSoftmaxForwardS {
    pub calling_tid: u64,
    pub wall_start: u64,
    pub wall_end: u64,
    pub id: u64,
    pub cudnn_handle: u64,
    pub input_vector: [u64; 7],
    pub output_vector: [u64; 1],
}

/// A cuDNN library call.
pub enum Record {
    CudnnActivationBackward(CudnnActivationBackwardS),
    CudnnActivationForward(CudnnActivationForwardS),
    CudnnAddTensor(CudnnAddTensorS),
    CudnnConvolutionBackwardBias(CudnnConvolutionBackwardBiasS),
    CudnnConvolutionBackwardData(CudnnConvolutionBackwardDataS),
    CudnnConvolutionBackwardFilter(CudnnConvolutionBackwardFilterS),
    CudnnConvolutionForward(CudnnConvolutionForwardS),
    CudnnCreate(CudnnCreateS),
    CudnnDestroy(CudnnDestroyS),
    CudnnPoolingForward(CudnnPoolingForwardS),
    CudnnSoftmaxForward(CudnnSoftmaxForwardS),
}

} // verus!
