# burn_kernels

The host side of two GPU kernels, written in Verus: what a fused reduction over
several dims shows to the reduce routines, and a depthwise 2D convolution.

## The library, `src/`

- `reduce::view`: the view in which several reduced dims that sit next to each
  other in memory are one axis, and when there is such a view.
- `reduce::args`: what the reduce routines ask of the fusion engine, and the
  sizes and strides they see through a view.
- `reduce::laws`: what a merged view promises, foremost that a step along its
  merged axis reaches the elements of the reduced dims where they sit.
- `depthwise::model`: what a depthwise convolution is.
- `depthwise::kernel`: what one unit of the launch computes and writes.
- `depthwise::launch`: planning a launch and carrying it out.
- `depthwise::laws`: channels stay apart, the units share out the output, a unit
  inside need not check its taps, and a convolution with one channel in every
  group is depthwise.
- `layout`, `conv`, `element`, `tensor`, `engine`: what these rest on.

Elements are any type with a zero, a sum and a product. The integers wrap.

Calls into `burn-backend` and `cubecl`, and the types of theirs that the library
holds, are declared in `conv`, `engine`, `tensor` and `depthwise::launch`, each
with a comment that says what is taken on trust.

## The application, `app/`

Views that can be stored, the reduction that runs on an engine, and the
convolution on a device.
