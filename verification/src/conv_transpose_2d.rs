use vstd::prelude::*;

verus! {

/// The settings of a transposed 2d convolution, as a mathematical value.
pub struct ConvTranspose2dSettings {
    pub in_channels: usize,
    pub out_channels: usize,
    pub kernel_size: [usize; 2],
    pub stride: [usize; 2],
    pub padding: [usize; 2],
    pub padding_out: [usize; 2],
    pub dilation: [usize; 2],
    pub groups: usize,
    pub bias: bool,
}

/// Configuration of a transposed 2d convolution.
pub struct ConvTranspose2dConfig {
    in_channels: usize,
    out_channels: usize,
    kernel_size: [usize; 2],
    stride: [usize; 2],
    padding: [usize; 2],
    padding_out: [usize; 2],
    dilation: [usize; 2],
    groups: usize,
    bias: bool,
}

impl View for ConvTranspose2dConfig {
    type V = ConvTranspose2dSettings;

    closed spec fn view(&self) -> ConvTranspose2dSettings {
        ConvTranspose2dSettings {
            in_channels: self.in_channels,
            out_channels: self.out_channels,
            kernel_size: self.kernel_size,
            stride: self.stride,
            padding: self.padding,
            padding_out: self.padding_out,
            dilation: self.dilation,
            groups: self.groups,
            bias: self.bias,
        }
    }
}

/// What a transposed convolution is built with: the shape of its weight
/// (`[in_channels, out_channels, kernel_h, kernel_w]`), the length of its
/// bias when it has one, and the options of the convolution.
pub struct ConvTranspose2dLayout {
    pub weight_shape: [usize; 4],
    pub bias_len: Option<usize>,
    pub stride: [usize; 2],
    pub padding: [usize; 2],
    pub padding_out: [usize; 2],
    pub dilation: [usize; 2],
    pub groups: usize,
}

/// The layout a module built from settings `c` gets. Dilation and groups
/// are always `[1, 1]` and `1`, whatever the settings hold.
pub open spec fn spec_init_layout(c: ConvTranspose2dSettings) -> ConvTranspose2dLayout {
    ConvTranspose2dLayout {
        weight_shape: [c.in_channels, c.out_channels, c.kernel_size[0], c.kernel_size[1]],
        bias_len: if c.bias {
            Some(c.out_channels)
        } else {
            None
        },
        stride: c.stride,
        padding: c.padding,
        padding_out: c.padding_out,
        dilation: [1, 1],
        groups: 1,
    }
}

impl ConvTranspose2dConfig {
    /// A configuration with stride 1, no padding, dilation 1, one group and
    /// a bias.
    pub fn new(in_channels: usize, out_channels: usize, kernel_size: [usize; 2]) -> (res: Self)
        ensures
            res@ == (ConvTranspose2dSettings {
                in_channels,
                out_channels,
                kernel_size,
                stride: [1, 1],
                padding: [0, 0],
                padding_out: [0, 0],
                dilation: [1, 1],
                groups: 1,
                bias: true,
            }),
    {
        Self {
            in_channels,
            out_channels,
            kernel_size,
            stride: [1, 1],
            padding: [0, 0],
            padding_out: [0, 0],
            dilation: [1, 1],
            groups: 1,
            bias: true,
        }
    }

    pub fn set_stride(&mut self, stride: [usize; 2]) -> (res: &mut Self)
        ensures
            res@ == (ConvTranspose2dSettings { stride, ..old(self)@ }),
            final(self)@ == final(res)@,
    {
        self.stride = stride;
        self
    }

    pub fn set_padding(&mut self, padding: [usize; 2]) -> (res: &mut Self)
        ensures
            res@ == (ConvTranspose2dSettings { padding, ..old(self)@ }),
            final(self)@ == final(res)@,
    {
        self.padding = padding;
        self
    }

    pub fn set_padding_out(&mut self, padding_out: [usize; 2]) -> (res: &mut Self)
        ensures
            res@ == (ConvTranspose2dSettings { padding_out, ..old(self)@ }),
            final(self)@ == final(res)@,
    {
        self.padding_out = padding_out;
        self
    }

    pub fn set_dilation(&mut self, dilation: [usize; 2]) -> (res: &mut Self)
        ensures
            res@ == (ConvTranspose2dSettings { dilation, ..old(self)@ }),
            final(self)@ == final(res)@,
    {
        self.dilation = dilation;
        self
    }

    pub fn set_groups(&mut self, groups: usize) -> (res: &mut Self)
        ensures
            res@ == (ConvTranspose2dSettings { groups, ..old(self)@ }),
            final(self)@ == final(res)@,
    {
        self.groups = groups;
        self
    }

    pub fn set_bias(&mut self, bias: bool) -> (res: &mut Self)
        ensures
            res@ == (ConvTranspose2dSettings { bias, ..old(self)@ }),
            final(self)@ == final(res)@,
    {
        self.bias = bias;
        self
    }

    /// The layout of the module this configuration builds.
    pub fn init_layout(&self) -> (res: ConvTranspose2dLayout)
        ensures
            res == spec_init_layout(self@),
    {
        ConvTranspose2dLayout {
            weight_shape: [
                self.in_channels,
                self.out_channels,
                self.kernel_size[0],
                self.kernel_size[1],
            ],
            bias_len: if self.bias {
                Some(self.out_channels)
            } else {
                None
            },
            stride: self.stride,
            padding: self.padding,
            padding_out: self.padding_out,
            dilation: [1, 1],
            groups: 1,
        }
    }
}

/// Building a module does not depend on the dilation and groups that were
/// configured: two configurations that differ only there build the same
/// module.
pub proof fn lemma_init_ignores_dilation_and_groups(a: ConvTranspose2dSettings, b: ConvTranspose2dSettings)
    requires
        a.in_channels == b.in_channels,
        a.out_channels == b.out_channels,
        a.kernel_size == b.kernel_size,
        a.stride == b.stride,
        a.padding == b.padding,
        a.padding_out == b.padding_out,
        a.bias == b.bias,
    ensures
        spec_init_layout(a) == spec_init_layout(b),
{
}

/// A built module always has dilation `[1, 1]` and one group, whatever the
/// stride and the other settings; it takes its stride and paddings from the
/// settings, its weight is `in_channels x out_channels x kernel`, and it has
/// a bias of `out_channels` values exactly when the settings ask for one.
pub proof fn lemma_init_layout_of_settings(c: ConvTranspose2dSettings)
    ensures
        spec_init_layout(c).dilation == [1usize, 1usize],
        spec_init_layout(c).groups == 1,
        spec_init_layout(c).stride == c.stride,
        spec_init_layout(c).padding == c.padding,
        spec_init_layout(c).padding_out == c.padding_out,
        spec_init_layout(c).weight_shape == [
            c.in_channels,
            c.out_channels,
            c.kernel_size[0],
            c.kernel_size[1],
        ],
        c.bias ==> spec_init_layout(c).bias_len == Some(c.out_channels),
        !c.bias ==> spec_init_layout(c).bias_len is None,
{
}

} // verus!
