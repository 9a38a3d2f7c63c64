use vstd::prelude::*;

verus! {

/// Why a sound source could not be set up or read.
#[derive(Debug, Copy, Clone, PartialEq, Eq, Structural)]
pub enum DeviceError {
    /// The one-time setup of the device failed.
    InitFailed,
    /// The device was read before it was set up.
    NotReady,
    /// The device went away.
    DeviceLost,
}

/// A source of raw audio samples.
///
/// The four spec functions say what the two calls give and what they leave
/// of the source, so that a loop that reads the source can say which windows
/// it rendered, how often it read, and where it stopped.
pub trait IrradianceSoundProvider: Sized {
    /// What `init` gives.
    spec fn set_up(&self) -> Result<(), DeviceError>;

    /// The source as `init` leaves it.
    spec fn after_set_up(&self) -> Self;

    /// What a read of `length` milliseconds gives: the samples of the
    /// window, or the error of the device.
    spec fn next_window(&self, length: u32) -> Result<Seq<u32>, DeviceError>;

    /// The source as a read of `length` milliseconds leaves it.
    spec fn after_window(&self, length: u32) -> Self;

    fn new() -> Self;

    /// Sets the device up, once, before the first read.
    fn init(&mut self) -> (done: Result<(), DeviceError>)
        ensures
            done == old(self).set_up(),
            *final(self) == old(self).after_set_up(),
    ;

    /// Read audio from the provider. Blocks until the window is complete.
    ///
    /// # Arguments
    /// * `length` - The number of milliseconds of audio to get.
    fn read(&mut self, length: u32) -> (window: Result<Vec<u32>, DeviceError>)
        ensures
            match window {
                Ok(samples) => old(self).next_window(length) == Ok::<Seq<u32>, DeviceError>(
                    samples@,
                ),
                Err(error) => old(self).next_window(length) == Err::<Seq<u32>, DeviceError>(error),
            },
            *final(self) == old(self).after_window(length),
    ;
}

/// The source `source` after `reads` reads of `length` milliseconds each.
pub open spec fn source_after<P: IrradianceSoundProvider>(source: P, length: u32, reads: nat) -> P
    decreases reads,
{
    if reads == 0 {
        source
    } else {
        source_after(source, length, (reads - 1) as nat).after_window(length)
    }
}

/// A sound source without a device. It hands out one sample for every
/// millisecond asked for, each of the value `level`. It can be told to fail
/// its setup, and to lose its device after a number of reads.
#[derive(Debug, Copy, Clone, PartialEq, Eq, Structural)]
pub struct FakeSoundProvider {
    /// The value of every sample.
    pub level: u32,
    /// How many reads succeed before the device is lost; `None` where it
    /// never is.
    pub reads_left: Option<usize>,
    /// Whether `init` fails.
    pub broken: bool,
    /// Whether `init` has run and succeeded.
    pub ready: bool,
}

impl FakeSoundProvider {
    /// What a read of `length` milliseconds hands out.
    pub open spec fn window(&self, length: u32) -> Seq<u32> {
        Seq::new(length as nat, |i: int| self.level)
    }

    /// The error of the next read, if it fails.
    pub open spec fn next_error(&self) -> Option<DeviceError> {
        if !self.ready {
            Some(DeviceError::NotReady)
        } else if self.reads_left == Some(0usize) {
            Some(DeviceError::DeviceLost)
        } else {
            None
        }
    }

    /// The provider after a read that succeeded.
    pub open spec fn after_read(&self) -> FakeSoundProvider {
        FakeSoundProvider {
            level: self.level,
            reads_left: match self.reads_left {
                Some(n) => Some((n - 1) as usize),
                None => None,
            },
            broken: self.broken,
            ready: self.ready,
        }
    }

    /// A silent source that loses its device after `reads` reads.
    pub fn failing_after(reads: usize) -> (provider: FakeSoundProvider)
        ensures
            provider == (FakeSoundProvider {
                level: 0,
                reads_left: Some(reads),
                broken: false,
                ready: false,
            }),
    {
        FakeSoundProvider { level: 0, reads_left: Some(reads), broken: false, ready: false }
    }

    /// A silent source whose setup fails.
    pub fn failing_setup() -> (provider: FakeSoundProvider)
        ensures
            provider == (FakeSoundProvider {
                level: 0,
                reads_left: None,
                broken: true,
                ready: false,
            }),
    {
        FakeSoundProvider { level: 0, reads_left: None, broken: true, ready: false }
    }
}

impl IrradianceSoundProvider for FakeSoundProvider {
    /// The setup fails with `InitFailed` exactly where the source is broken.
    open spec fn set_up(&self) -> Result<(), DeviceError> {
        if self.broken {
            Err(DeviceError::InitFailed)
        } else {
            Ok(())
        }
    }

    /// A setup that succeeds makes the source ready; one that fails leaves
    /// it as it is.
    open spec fn after_set_up(&self) -> Self {
        if self.broken {
            *self
        } else {
            FakeSoundProvider { ready: true, ..*self }
        }
    }

    open spec fn next_window(&self, length: u32) -> Result<Seq<u32>, DeviceError> {
        match self.next_error() {
            Some(error) => Err(error),
            None => Ok(self.window(length)),
        }
    }

    /// A read that fails leaves the source as it is.
    open spec fn after_window(&self, length: u32) -> Self {
        if self.next_error() is None {
            self.after_read()
        } else {
            *self
        }
    }

    /// A silent source that never loses its device.
    fn new() -> (provider: FakeSoundProvider)
        ensures
            provider == (FakeSoundProvider {
                level: 0,
                reads_left: None,
                broken: false,
                ready: false,
            }),
    {
        FakeSoundProvider { level: 0, reads_left: None, broken: false, ready: false }
    }

    fn init(&mut self) -> (done: Result<(), DeviceError>) {
        if self.broken {
            return Err(DeviceError::InitFailed);
        }
        self.ready = true;
        Ok(())
    }

    fn read(&mut self, length: u32) -> (window: Result<Vec<u32>, DeviceError>) {
        if !self.ready {
            return Err(DeviceError::NotReady);
        }
        match self.reads_left {
            Some(n) => {
                if n == 0 {
                    return Err(DeviceError::DeviceLost);
                }
                self.reads_left = Some(n - 1);
            },
            None => {},
        }
        let mut samples: Vec<u32> = Vec::new();
        let mut i: u32 = 0;
        while i < length
            invariant
                i <= length,
                samples@ == Seq::new(i as nat, |k: int| self.level),
            decreases length - i,
        {
            samples.push(self.level);
            i += 1;
        }
        Ok(samples)
    }
}

/// The source without a device, once set up, after `reads` reads that it
/// had left: it has that many reads fewer left, and is otherwise as it was.
pub proof fn lemma_fake_source_after(source: FakeSoundProvider, length: u32, reads: nat)
    requires
        source.ready,
        source.reads_left matches Some(n) ==> reads <= n,
    ensures
        source_after(source, length, reads) == (FakeSoundProvider {
            reads_left: match source.reads_left {
                Some(n) => Some((n - reads) as usize),
                None => None,
            },
            ..source
        }),
    decreases reads,
{
    if reads > 0 {
        lemma_fake_source_after(source, length, (reads - 1) as nat);
    }
}

} // verus!
